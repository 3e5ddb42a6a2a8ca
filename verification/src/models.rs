//! Value types and the ticket record: non-empty titles and comments, the
//! closed set of statuses with its text mapping, drafts and patches, and the
//! ticket aggregate with its human-readable rendering.

use vstd::prelude::*;
use vstd::string::{StrSliceExecFns, StringExecFns};

verus! {

/// Code points with the Unicode `White_Space` property: exactly the
/// characters that trimming strips from either end of a string.
pub open spec fn is_space(c: char) -> bool {
    (c as u32) == 0x09 || (c as u32) == 0x0A || (c as u32) == 0x0B || (c as u32) == 0x0C
        || (c as u32) == 0x0D || (c as u32) == 0x20 || (c as u32) == 0x85 || (c as u32) == 0xA0
        || (c as u32) == 0x1680 || (0x2000 <= (c as u32) && (c as u32) <= 0x200A)
        || (c as u32) == 0x2028 || (c as u32) == 0x2029 || (c as u32) == 0x202F
        || (c as u32) == 0x205F || (c as u32) == 0x3000
}

/// A string is blank when it is empty after trimming, that is, when every
/// character is whitespace (an empty string is vacuously blank).
pub open spec fn is_blank(s: Seq<char>) -> bool {
    forall|i: int| 0 <= i < s.len() ==> is_space(s[i])
}

fn is_space_char(c: char) -> (r: bool)
    ensures
        r == is_space(c),
{
    let u = c as u32;
    u == 0x09 || u == 0x0A || u == 0x0B || u == 0x0C || u == 0x0D || u == 0x20 || u == 0x85
        || u == 0xA0 || u == 0x1680 || (0x2000 <= u && u <= 0x200A) || u == 0x2028 || u == 0x2029
        || u == 0x202F || u == 0x205F || u == 0x3000
}

fn is_blank_str(s: &str) -> (r: bool)
    ensures
        r == is_blank(s@),
{
    let n = s.unicode_len();
    let mut i: usize = 0;
    while i < n
        invariant
            n == s@.len(),
            0 <= i <= n,
            forall|j: int| 0 <= j < i ==> is_space(s@[j]),
        decreases n - i,
    {
        if !is_space_char(s.get_char(i)) {
            assert(!is_space(s@[i as int]));
            return false;
        }
        i += 1;
    }
    true
}

/// The failures that can arise when raw user input is turned into a value
/// type; lookups on missing identifiers are not errors but absent results.
#[derive(Clone, Copy, Debug, PartialEq, Eq, Structural)]
pub enum ValidationError {
    EmptyTitle,
    EmptyComment,
    InvalidStatusText,
}

/// A ticket's title: any string that is non-empty after trimming.  The
/// original, untrimmed text is kept.  Immutable once constructed.
#[derive(Clone, Debug, PartialEq, Eq, Hash)]
pub struct Title {
    text: String,
}

impl View for Title {
    type V = Seq<char>;

    closed spec fn view(&self) -> Seq<char> {
        self.text@
    }
}

impl Title {
    /// Every title that can be constructed holds a non-blank string.
    pub open spec fn wf(&self) -> bool {
        !is_blank(self@)
    }

    /// Accepts exactly the strings that are non-empty after trimming and
    /// stores the original text unchanged.
    pub fn new(raw: String) -> (r: Result<Title, ValidationError>)
        ensures
            is_blank(raw@) ==> r == Err::<Title, ValidationError>(ValidationError::EmptyTitle),
            !is_blank(raw@) ==> (r matches Ok(t) && t@ == raw@ && t.wf()),
    {
        if is_blank_str(raw.as_str()) {
            Err(ValidationError::EmptyTitle)
        } else {
            Ok(Title { text: raw })
        }
    }

    /// The wrapped text, exactly as it was given to `new`.
    pub fn text(&self) -> (r: &str)
        ensures
            r@ == self@,
    {
        self.text.as_str()
    }
}

/// The lifecycle state of a ticket: a flat tag set with no ordering and no
/// restriction on which state may move to which.
#[derive(Clone, Copy, Debug, PartialEq, Eq, Hash, Structural)]
pub enum Status {
    ToDo,
    InProgress,
    Blocked,
    Done,
}

/// ASCII case folding on a code point: the letters `A`..`Z` map to their
/// lowercase forms, everything else is unchanged.
pub open spec fn fold_code(u: u32) -> u32 {
    if 0x41 <= u && u <= 0x5A {
        (u + 0x20) as u32
    } else {
        u
    }
}

/// A string's code points after ASCII case folding; two strings name the same
/// status exactly when they fold to the same sequence.
pub open spec fn folded(s: Seq<char>) -> Seq<u32> {
    s.map_values(|c: char| fold_code(c as u32))
}

/// The case-insensitive status text mapping: `todo`/`to-do`,
/// `inprogress`/`in-progress`, `blocked` and `done`; anything else is invalid.
pub open spec fn status_of_text(s: Seq<char>) -> Option<Status> {
    if folded(s) == folded("todo"@) || folded(s) == folded("to-do"@) {
        Some(Status::ToDo)
    } else if folded(s) == folded("inprogress"@) || folded(s) == folded("in-progress"@) {
        Some(Status::InProgress)
    } else if folded(s) == folded("blocked"@) {
        Some(Status::Blocked)
    } else if folded(s) == folded("done"@) {
        Some(Status::Done)
    } else {
        None
    }
}

fn fold_code_exec(u: u32) -> (r: u32)
    ensures
        r == fold_code(u),
{
    if 0x41 <= u && u <= 0x5A {
        u + 0x20
    } else {
        u
    }
}

/// Whether two strings are equal up to ASCII case.
fn eq_folded(a: &str, b: &str) -> (r: bool)
    ensures
        r == (folded(a@) == folded(b@)),
{
    let na = a.unicode_len();
    let nb = b.unicode_len();
    if na != nb {
        proof {
            assert(folded(a@).len() != folded(b@).len());
        }
        return false;
    }
    let mut i: usize = 0;
    while i < na
        invariant
            na == a@.len(),
            na == b@.len(),
            0 <= i <= na,
            forall|j: int| 0 <= j < i ==> folded(a@)[j] == folded(b@)[j],
        decreases na - i,
    {
        let ca = fold_code_exec(a.get_char(i) as u32);
        let cb = fold_code_exec(b.get_char(i) as u32);
        if ca != cb {
            proof {
                assert(folded(a@)[i as int] != folded(b@)[i as int]);
            }
            return false;
        }
        i += 1;
    }
    proof {
        assert(folded(a@) =~= folded(b@));
    }
    true
}

impl Status {
    /// Turns raw user text into a status by the case-insensitive mapping in
    /// `status_of_text`; unrecognised text is a recoverable validation error,
    /// never an abort.
    pub fn parse(s: &str) -> (r: Result<Status, ValidationError>)
        ensures
            match status_of_text(s@) {
                Some(st) => r == Ok::<Status, ValidationError>(st),
                None => r == Err::<Status, ValidationError>(ValidationError::InvalidStatusText),
            },
    {
        if eq_folded(s, "todo") || eq_folded(s, "to-do") {
            Ok(Status::ToDo)
        } else if eq_folded(s, "inprogress") || eq_folded(s, "in-progress") {
            Ok(Status::InProgress)
        } else if eq_folded(s, "blocked") {
            Ok(Status::Blocked)
        } else if eq_folded(s, "done") {
            Ok(Status::Done)
        } else {
            Err(ValidationError::InvalidStatusText)
        }
    }

    /// The variant's name, as it appears in a rendered ticket.
    pub open spec fn label_spec(&self) -> Seq<char> {
        match self {
            Status::ToDo => "ToDo"@,
            Status::InProgress => "InProgress"@,
            Status::Blocked => "Blocked"@,
            Status::Done => "Done"@,
        }
    }

    /// The variant's name as text.
    pub fn label(&self) -> (r: &'static str)
        ensures
            r@ == self.label_spec(),
    {
        match self {
            Status::ToDo => "ToDo",
            Status::InProgress => "InProgress",
            Status::Blocked => "Blocked",
            Status::Done => "Done",
        }
    }
}

/// A remark appended to a ticket: like a title, any string that is non-empty
/// after trimming, kept untrimmed and immutable.
#[derive(Clone, Debug, PartialEq, Eq, Hash)]
pub struct Comment {
    text: String,
}

impl View for Comment {
    type V = Seq<char>;

    closed spec fn view(&self) -> Seq<char> {
        self.text@
    }
}

impl Comment {
    /// Every comment that can be constructed holds a non-blank string.
    pub open spec fn wf(&self) -> bool {
        !is_blank(self@)
    }

    /// Accepts exactly the strings that are non-empty after trimming and
    /// stores the original text unchanged.
    pub fn new(raw: String) -> (r: Result<Comment, ValidationError>)
        ensures
            is_blank(raw@) ==> r == Err::<Comment, ValidationError>(ValidationError::EmptyComment),
            !is_blank(raw@) ==> (r matches Ok(c) && c@ == raw@ && c.wf()),
    {
        if is_blank_str(raw.as_str()) {
            Err(ValidationError::EmptyComment)
        } else {
            Ok(Comment { text: raw })
        }
    }

    /// The wrapped text, exactly as it was given to `new`.
    pub fn text(&self) -> (r: &str)
        ensures
            r@ == self@,
    {
        self.text.as_str()
    }
}

/// The unsigned identifier a store assigns to each ticket.
pub type TicketId = u64;

/// Caller-constructed input for creating a ticket: a validated title and a
/// free-form description (the description has no non-empty constraint).
#[derive(Clone, Debug, PartialEq, Eq)]
pub struct TicketDraft {
    pub title: Title,
    pub description: String,
}

/// A partial update: an absent field means "leave the current value
/// unchanged", a present one "replace with this value".
#[derive(Clone, Debug, PartialEq, Eq)]
pub struct TicketPatch {
    pub title: Option<Title>,
    pub description: Option<String>,
}

/// The mathematical value of a ticket: its identifier, the texts, the status
/// and the ordered comment texts.
pub ghost struct TicketView {
    pub id: TicketId,
    pub title: Seq<char>,
    pub description: Seq<char>,
    pub status: Status,
    pub comments: Seq<Seq<char>>,
}

/// The persistent aggregate: identity, texts, lifecycle state and an ordered
/// sequence of comments.  Created and mutated only through the store.
#[derive(Clone, Debug, PartialEq, Eq, Hash)]
pub struct Ticket {
    pub id: TicketId,
    pub title: Title,
    pub description: String,
    pub status: Status,
    pub comments: Vec<Comment>,
}

impl View for Ticket {
    type V = TicketView;

    open spec fn view(&self) -> TicketView {
        TicketView {
            id: self.id,
            title: self.title@,
            description: self.description@,
            status: self.status,
            comments: self.comments@.map_values(|c: Comment| c@),
        }
    }
}

/// The decimal digit characters `0` through `9`.
pub open spec fn digit_char(d: nat) -> char {
    if d == 0 {
        '0'
    } else if d == 1 {
        '1'
    } else if d == 2 {
        '2'
    } else if d == 3 {
        '3'
    } else if d == 4 {
        '4'
    } else if d == 5 {
        '5'
    } else if d == 6 {
        '6'
    } else if d == 7 {
        '7'
    } else if d == 8 {
        '8'
    } else {
        '9'
    }
}

/// A number's ordinary decimal rendering: most significant digit first, no
/// leading zeroes (a lone `0` for zero).
pub open spec fn dec_rep(n: nat) -> Seq<char>
    decreases n,
{
    if n < 10 {
        seq![digit_char(n)]
    } else {
        dec_rep(n / 10).push(digit_char(n % 10))
    }
}

fn digit_str(d: u64) -> (r: &'static str)
    requires
        d < 10,
    ensures
        r@ == seq![digit_char(d as nat)],
{
    let r = if d == 0 {
        "0"
    } else if d == 1 {
        "1"
    } else if d == 2 {
        "2"
    } else if d == 3 {
        "3"
    } else if d == 4 {
        "4"
    } else if d == 5 {
        "5"
    } else if d == 6 {
        "6"
    } else if d == 7 {
        "7"
    } else if d == 8 {
        "8"
    } else {
        "9"
    };
    proof {
        reveal_strlit("0");
        reveal_strlit("1");
        reveal_strlit("2");
        reveal_strlit("3");
        reveal_strlit("4");
        reveal_strlit("5");
        reveal_strlit("6");
        reveal_strlit("7");
        reveal_strlit("8");
        reveal_strlit("9");
        assert(r@ =~= seq![digit_char(d as nat)]);
    }
    r
}

/// The decimal rendering of an unsigned number.
pub fn decimal_string(n: u64) -> (r: String)
    ensures
        r@ == dec_rep(n as nat),
    decreases n,
{
    if n < 10 {
        String::from_str(digit_str(n))
    } else {
        let rest = decimal_string(n / 10);
        let last = digit_str(n % 10);
        let r = rest.concat(last);
        proof {
            assert(r@ =~= dec_rep((n / 10) as nat).push(digit_char((n % 10) as nat)));
        }
        r
    }
}

/// One rendered comment line: a tab, a dash, the comment's text, a newline.
pub open spec fn comment_line_spec(c: Seq<char>) -> Seq<char> {
    "\t- "@ + c + "\n"@
}

/// The rendered comment block: one line per comment, in comment order.
pub open spec fn comments_block_spec(cs: Seq<Seq<char>>) -> Seq<char>
    decreases cs.len(),
{
    if cs.len() == 0 {
        Seq::empty()
    } else {
        comments_block_spec(cs.drop_last()) + comment_line_spec(cs.last())
    }
}

/// The rendered ticket: a labelled line each for identifier, title,
/// description and status, then the comment block.
pub open spec fn render_spec(t: TicketView) -> Seq<char> {
    "Ticket:\n\tId:"@ + dec_rep(t.id as nat) + "\n\tTitle:"@ + t.title + "\n\tDescription:"@
        + t.description + "\n\tStatus:"@ + t.status.label_spec() + "\n\tComments:\n"@
        + comments_block_spec(t.comments)
}

fn comment_line(c: &Comment) -> (r: String)
    ensures
        r@ == comment_line_spec(c@),
{
    let mut line = String::from_str("\t- ");
    line.append(c.text());
    line.append("\n");
    line
}

impl Ticket {
    /// The human-readable rendering: identifier, title, description and
    /// status on labelled lines, then each comment as a bulleted line, in
    /// comment order.
    pub fn render(&self) -> (r: String)
        ensures
            r@ == render_spec(self@),
    {
        let mut out = String::from_str("Ticket:\n\tId:");
        let id_text = decimal_string(self.id);
        out.append(id_text.as_str());
        out.append("\n\tTitle:");
        out.append(self.title.text());
        out.append("\n\tDescription:");
        out.append(self.description.as_str());
        out.append("\n\tStatus:");
        out.append(self.status.label());
        out.append("\n\tComments:\n");
        let ghost header = out@;
        proof {
            assert(out@ =~= header + comments_block_spec(self@.comments.take(0)));
        }
        let n = self.comments.len();
        let mut i: usize = 0;
        while i < n
            invariant
                n == self.comments@.len(),
                0 <= i <= n,
                out@ == header + comments_block_spec(self@.comments.take(i as int)),
            decreases n - i,
        {
            let line = comment_line(&self.comments[i]);
            out.append(line.as_str());
            proof {
                let cs = self@.comments;
                assert(cs.take(i as int + 1).drop_last() =~= cs.take(i as int));
                assert(cs.take(i as int + 1).last() == cs[i as int]);
                assert(cs[i as int] == self.comments@[i as int]@);
                assert(out@ =~= header + comments_block_spec(cs.take(i as int + 1)));
            }
            i += 1;
        }
        proof {
            assert(self@.comments.take(n as int) =~= self@.comments);
            assert(out@ =~= render_spec(self@));
        }
        out
    }
}

/// A ticket removed from the store, handed to the caller as an owned value so
/// it cannot be confused with a record that is still stored.
#[derive(Debug, PartialEq, Eq)]
pub struct DeletedTicket(pub Ticket);

impl View for DeletedTicket {
    type V = TicketView;

    open spec fn view(&self) -> TicketView {
        self.0@
    }
}

} // verus!
