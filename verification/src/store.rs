//! The ticket store: sole owner of all ticket records, keyed by identifier.
//! Identifiers come from a monotonically increasing counter (first issued
//! identifier is 1), so every stored identifier is unique.  The store is
//! modelled as a finite map from identifier to the ticket's view.

use vstd::prelude::*;
use crate::models::{Comment, Status, Ticket, TicketDraft, TicketId, TicketPatch, TicketView,
    DeletedTicket};

verus! {

/// No two tickets of the sequence carry the same identifier.
pub open spec fn unique_ids(s: Seq<Ticket>) -> bool {
    forall|i: int, j: int| 0 <= i < j < s.len() ==> s[i].id != s[j].id
}

/// The map that a sequence of tickets stands for: each ticket's view under
/// its identifier, later entries overwriting earlier ones (with unique
/// identifiers nothing is overwritten).
pub open spec fn map_of(s: Seq<Ticket>) -> Map<TicketId, TicketView>
    decreases s.len(),
{
    if s.len() == 0 {
        Map::empty()
    } else {
        map_of(s.drop_last()).insert(s.last().id, s.last()@)
    }
}

proof fn lemma_map_of_contains(s: Seq<Ticket>, k: TicketId)
    ensures
        map_of(s).contains_key(k) <==> exists|i: int| 0 <= i < s.len() && s[i].id == k,
    decreases s.len(),
{
    if s.len() > 0 {
        lemma_map_of_contains(s.drop_last(), k);
        if s.last().id == k {
            assert(s[s.len() - 1].id == k);
        } else if map_of(s).contains_key(k) {
            let i = choose|i: int| 0 <= i < s.drop_last().len() && s.drop_last()[i].id == k;
            assert(s[i].id == k);
        } else {
            assert forall|i: int| 0 <= i < s.len() implies s[i].id != k by {
                if i < s.len() - 1 {
                    assert(s.drop_last()[i].id == s[i].id);
                }
            }
        }
    }
}

proof fn lemma_map_of_finite(s: Seq<Ticket>)
    ensures
        map_of(s).dom().finite(),
        unique_ids(s) ==> map_of(s).dom().len() == s.len(),
    decreases s.len(),
{
    if s.len() > 0 {
        lemma_map_of_finite(s.drop_last());
        if unique_ids(s) {
            assert(unique_ids(s.drop_last())) by {
                assert forall|i: int, j: int|
                    0 <= i < j < s.drop_last().len() implies s.drop_last()[i].id
                    != s.drop_last()[j].id by {
                    assert(s[i].id != s[j].id);
                }
            }
            lemma_map_of_contains(s.drop_last(), s.last().id);
            assert forall|i: int| 0 <= i < s.drop_last().len() implies s.drop_last()[i].id
                != s.last().id by {
                assert(s[i].id != s[s.len() - 1].id);
            }
            assert(!map_of(s.drop_last()).contains_key(s.last().id));
        }
    }
}

proof fn lemma_unique_drop_last(s: Seq<Ticket>)
    requires
        unique_ids(s),
        s.len() > 0,
    ensures
        unique_ids(s.drop_last()),
{
    assert forall|i: int, j: int|
        0 <= i < j < s.drop_last().len() implies s.drop_last()[i].id != s.drop_last()[j].id by {
        assert(s[i].id != s[j].id);
    }
}

proof fn lemma_map_of_index(s: Seq<Ticket>, i: int)
    requires
        unique_ids(s),
        0 <= i < s.len(),
    ensures
        map_of(s).contains_key(s[i].id),
        map_of(s)[s[i].id] == s[i]@,
    decreases s.len(),
{
    if i == s.len() - 1 {
    } else {
        lemma_unique_drop_last(s);
        assert(s.drop_last()[i] == s[i]);
        lemma_map_of_index(s.drop_last(), i);
        assert(s[i].id != s.last().id);
    }
}

proof fn lemma_map_of_update(s: Seq<Ticket>, i: int, t: Ticket)
    requires
        unique_ids(s),
        0 <= i < s.len(),
        t.id == s[i].id,
    ensures
        map_of(s.update(i, t)) == map_of(s).insert(t.id, t@),
    decreases s.len(),
{
    let s2 = s.update(i, t);
    if i == s.len() - 1 {
        assert(s2.drop_last() =~= s.drop_last());
        assert(s2.last() == t);
        assert(map_of(s.drop_last()).insert(t.id, t@) =~= map_of(s.drop_last()).insert(
            s.last().id,
            s.last()@,
        ).insert(t.id, t@));
    } else {
        lemma_unique_drop_last(s);
        assert(s.drop_last()[i] == s[i]);
        lemma_map_of_update(s.drop_last(), i, t);
        assert(s2.drop_last() =~= s.drop_last().update(i, t));
        assert(s2.last() == s.last());
        assert(s[i].id != s.last().id);
        assert(map_of(s.drop_last()).insert(t.id, t@).insert(s.last().id, s.last()@)
            =~= map_of(s.drop_last()).insert(s.last().id, s.last()@).insert(t.id, t@));
    }
}

proof fn lemma_map_of_remove(s: Seq<Ticket>, i: int)
    requires
        unique_ids(s),
        0 <= i < s.len(),
    ensures
        map_of(s.remove(i)) == map_of(s).remove(s[i].id),
    decreases s.len(),
{
    let s2 = s.remove(i);
    lemma_unique_drop_last(s);
    if i == s.len() - 1 {
        assert(s2 =~= s.drop_last());
        lemma_map_of_contains(s.drop_last(), s.last().id);
        assert forall|j: int| 0 <= j < s.drop_last().len() implies s.drop_last()[j].id
            != s.last().id by {
            assert(s[j].id != s[s.len() - 1].id);
        }
        assert(!map_of(s.drop_last()).contains_key(s.last().id));
        assert(map_of(s.drop_last()) =~= map_of(s.drop_last()).insert(
            s.last().id,
            s.last()@,
        ).remove(s.last().id));
    } else {
        assert(s.drop_last()[i] == s[i]);
        lemma_map_of_remove(s.drop_last(), i);
        assert(s2.drop_last() =~= s.drop_last().remove(i));
        assert(s2.last() == s.last());
        assert(s[i].id != s.last().id);
        assert(map_of(s.drop_last()).remove(s[i].id).insert(s.last().id, s.last()@)
            =~= map_of(s.drop_last()).insert(s.last().id, s.last()@).remove(s[i].id));
    }
}

/// The record wrapped by `TicketStore`: an identifier counter and the tickets
/// themselves.  The invariant ties the two together: identifiers are unique
/// and every one of them was issued by the counter, i.e. lies in
/// `1 ..= counter`.
pub struct TicketStore {
    current_id: u64,
    data: Vec<Ticket>,
}

impl View for TicketStore {
    type V = Map<TicketId, TicketView>;

    closed spec fn view(&self) -> Map<TicketId, TicketView> {
        map_of(self.data@)
    }
}

impl TicketStore {
    /// The identifier counter: the last identifier issued, 0 when none was.
    pub closed spec fn counter(&self) -> u64 {
        self.current_id
    }

    /// The store's invariant: identifiers are unique, issued by the counter,
    /// and each ticket is keyed by its own identifier.
    pub closed spec fn wf(&self) -> bool {
        &&& unique_ids(self.data@)
        &&& forall|i: int|
            0 <= i < self.data@.len() ==> 1 <= #[trigger] self.data@[i].id <= self.current_id
    }

    /// What the invariant gives a caller: the ticket map is finite, every key
    /// was issued by the counter, and every record carries its key as its
    /// identifier.
    pub proof fn lemma_wf_facts(&self)
        requires
            self.wf(),
        ensures
            self@.dom().finite(),
            forall|k: TicketId|
                self@.contains_key(k) ==> 1 <= k <= self.counter() && (#[trigger] self@[k]).id
                    == k,
    {
        lemma_map_of_finite(self.data@);
        assert forall|k: TicketId| self@.contains_key(k) implies 1 <= k <= self.counter() && (
        #[trigger] self@[k]).id == k by {
            lemma_map_of_contains(self.data@, k);
            let i = choose|i: int| 0 <= i < self.data@.len() && self.data@[i].id == k;
            lemma_map_of_index(self.data@, i);
        }
    }

    /// A store with no tickets and no identifier issued yet.
    pub fn new() -> (r: TicketStore)
        ensures
            r.wf(),
            r.counter() == 0,
            r@ == Map::<TicketId, TicketView>::empty(),
    {
        TicketStore { current_id: 0, data: Vec::new() }
    }

    /// The current value of the identifier counter.
    pub fn current_counter(&self) -> (r: u64)
        ensures
            r == self.counter(),
    {
        self.current_id
    }

    fn find_index(&self, id: TicketId) -> (r: Option<usize>)
        ensures
            match r {
                Some(i) => i < self.data@.len() && self.data@[i as int].id == id,
                None => forall|j: int| 0 <= j < self.data@.len() ==> self.data@[j].id != id,
            },
    {
        let n = self.data.len();
        let mut i: usize = 0;
        while i < n
            invariant
                n == self.data@.len(),
                0 <= i <= n,
                forall|j: int| 0 <= j < i ==> self.data@[j].id != id,
            decreases n - i,
        {
            if self.data[i].id == id {
                return Some(i);
            }
            i += 1;
        }
        None
    }

    /// Pre-increments the counter, stores a fresh ticket built from the draft
    /// (status `ToDo`, no comments), and returns its identifier.  The new
    /// identifier was never in the store before.
    pub fn create(&mut self, draft: TicketDraft) -> (id: TicketId)
        requires
            old(self).wf(),
            old(self).counter() < u64::MAX,
        ensures
            final(self).wf(),
            id == old(self).counter() + 1,
            final(self).counter() == id,
            !old(self)@.contains_key(id),
            final(self)@ == old(self)@.insert(
                id,
                TicketView {
                    id,
                    title: draft.title@,
                    description: draft.description@,
                    status: Status::ToDo,
                    comments: Seq::empty(),
                },
            ),
    {
        self.current_id = self.current_id + 1;
        let id = self.current_id;
        proof {
            lemma_map_of_contains(self.data@, id);
        }
        let ticket = Ticket {
            id,
            description: draft.description,
            title: draft.title,
            status: Status::ToDo,
            comments: Vec::new(),
        };
        proof {
            assert(ticket@.comments =~= Seq::<Seq<char>>::empty());
        }
        let ghost before = self.data@;
        self.data.push(ticket);
        proof {
            assert(self.data@.drop_last() =~= before);
        }
        id
    }

    /// Applies the present fields of the patch to the stored ticket — a set
    /// title replaces the title, a set description the description, an absent
    /// field leaves its value exactly as it was — and reports success.  On a
    /// missing identifier nothing changes and nothing is returned.
    pub fn update_ticket(&mut self, id: TicketId, patch: TicketPatch) -> (r: Option<()>)
        requires
            old(self).wf(),
        ensures
            final(self).wf(),
            final(self).counter() == old(self).counter(),
            old(self)@.contains_key(id) ==> r == Some(()) && final(self)@ == old(self)@.insert(
                id,
                (TicketView {
                    id,
                    title: match patch.title {
                        Some(t) => t@,
                        None => old(self)@[id].title,
                    },
                    description: match patch.description {
                        Some(d) => d@,
                        None => old(self)@[id].description,
                    },
                    status: old(self)@[id].status,
                    comments: old(self)@[id].comments,
                }),
            ),
            !old(self)@.contains_key(id) ==> r == None::<()> && final(self)@ == old(self)@,
    {
        proof {
            lemma_map_of_contains(self.data@, id);
        }
        let TicketPatch { title: patch_title, description: patch_description } = patch;
        match self.find_index(id) {
            Some(i) => {
                proof {
                    lemma_map_of_index(self.data@, i as int);
                }
                let ghost s_old = self.data@;
                let t = &mut self.data[i];
                if let Some(new_title) = patch_title {
                    t.title = new_title;
                }
                if let Some(new_description) = patch_description {
                    t.description = new_description;
                }
                proof {
                    assert(self.data@ == s_old.update(i as int, self.data@[i as int]));
                    assert forall|k: int, l: int|
                        0 <= k < l < self.data@.len() implies self.data@[k].id
                        != self.data@[l].id by {
                        assert(s_old[k].id != s_old[l].id);
                    }
                    assert forall|j: int|
                        0 <= j < self.data@.len() implies 1 <= #[trigger] self.data@[j].id
                        <= self.current_id by {
                        assert(1 <= s_old[j].id <= self.current_id);
                    }
                    lemma_map_of_update(s_old, i as int, self.data@[i as int]);
                }
                Some(())
            },
            None => None,
        }
    }

    /// Unconditionally overwrites the ticket's status with the given value —
    /// any status may move to any other, including itself.  On a missing
    /// identifier nothing changes and nothing is returned.
    pub fn update_ticket_status(&mut self, id: TicketId, status: Status) -> (r: Option<()>)
        requires
            old(self).wf(),
        ensures
            final(self).wf(),
            final(self).counter() == old(self).counter(),
            old(self)@.contains_key(id) ==> r == Some(()) && final(self)@ == old(self)@.insert(
                id,
                (TicketView { status, ..old(self)@[id] }),
            ),
            !old(self)@.contains_key(id) ==> r == None::<()> && final(self)@ == old(self)@,
    {
        proof {
            lemma_map_of_contains(self.data@, id);
        }
        match self.find_index(id) {
            Some(i) => {
                proof {
                    lemma_map_of_index(self.data@, i as int);
                }
                let ghost s_old = self.data@;
                let t = &mut self.data[i];
                t.status = status;
                proof {
                    assert forall|k: int, l: int|
                        0 <= k < l < self.data@.len() implies self.data@[k].id
                        != self.data@[l].id by {
                        assert(s_old[k].id != s_old[l].id);
                    }
                    assert forall|j: int|
                        0 <= j < self.data@.len() implies 1 <= #[trigger] self.data@[j].id
                        <= self.current_id by {
                        assert(1 <= s_old[j].id <= self.current_id);
                    }
                    lemma_map_of_update(s_old, i as int, self.data@[i as int]);
                }
                Some(())
            },
            None => None,
        }
    }

    /// Appends the comment to the ticket's comment sequence, preserving the
    /// prior comments and their order.  On a missing identifier nothing
    /// changes and nothing is returned.
    pub fn add_comment_to_ticket(&mut self, id: TicketId, comment: Comment) -> (r: Option<()>)
        requires
            old(self).wf(),
        ensures
            final(self).wf(),
            final(self).counter() == old(self).counter(),
            old(self)@.contains_key(id) ==> r == Some(()) && final(self)@ == old(self)@.insert(
                id,
                (TicketView { comments: old(self)@[id].comments.push(comment@), ..old(self)@[id] }),
            ),
            !old(self)@.contains_key(id) ==> r == None::<()> && final(self)@ == old(self)@,
    {
        proof {
            lemma_map_of_contains(self.data@, id);
        }
        match self.find_index(id) {
            Some(i) => {
                proof {
                    lemma_map_of_index(self.data@, i as int);
                }
                let ghost s_old = self.data@;
                let t = &mut self.data[i];
                let ghost comments_old = t.comments@;
                t.comments.push(comment);
                proof {
                    assert(self.data@[i as int].comments@ == comments_old.push(comment));
                    assert(self.data@[i as int]@.comments =~= s_old[i as int]@.comments.push(
                        comment@,
                    ));
                    assert forall|k: int, l: int|
                        0 <= k < l < self.data@.len() implies self.data@[k].id
                        != self.data@[l].id by {
                        assert(s_old[k].id != s_old[l].id);
                    }
                    assert forall|j: int|
                        0 <= j < self.data@.len() implies 1 <= #[trigger] self.data@[j].id
                        <= self.current_id by {
                        assert(1 <= s_old[j].id <= self.current_id);
                    }
                    lemma_map_of_update(s_old, i as int, self.data@[i as int]);
                }
                Some(())
            },
            None => None,
        }
    }

    /// Removes the ticket and hands the exact prior record to the caller; a
    /// missing identifier leaves the store's contents unchanged and returns
    /// nothing.
    pub fn delete(&mut self, id: TicketId) -> (r: Option<DeletedTicket>)
        requires
            old(self).wf(),
        ensures
            final(self).wf(),
            final(self).counter() == old(self).counter(),
            old(self)@.contains_key(id) ==> (r matches Some(d) && d@ == old(self)@[id] && d.0.id
                == id && final(self)@ == old(self)@.remove(id)),
            !old(self)@.contains_key(id) ==> r == None::<DeletedTicket> && final(self)@ == old(
                self,
            )@,
    {
        proof {
            lemma_map_of_contains(self.data@, id);
        }
        match self.find_index(id) {
            Some(i) => {
                proof {
                    lemma_map_of_index(self.data@, i as int);
                    lemma_map_of_remove(self.data@, i as int);
                    self.data@.remove_ensures(i as int);
                }
                let ghost s_old = self.data@;
                let t = self.data.remove(i);
                proof {
                    assert forall|k: int, l: int|
                        0 <= k < l < self.data@.len() implies self.data@[k].id
                        != self.data@[l].id by {
                        let k0 = if k < i as int { k } else { k + 1 };
                        let l0 = if l < i as int { l } else { l + 1 };
                        assert(s_old[k0].id != s_old[l0].id);
                    }
                    assert forall|j: int|
                        0 <= j < self.data@.len() implies 1 <= #[trigger] self.data@[j].id
                        <= self.current_id by {
                        let j0 = if j < i as int { j } else { j + 1 };
                        assert(1 <= s_old[j0].id <= self.current_id);
                    }
                }
                Some(DeletedTicket(t))
            },
            None => None,
        }
    }

    /// Every stored ticket, each exactly once; the order of the returned
    /// sequence is unspecified.
    pub fn list(&self) -> (r: Vec<&Ticket>)
        requires
            self.wf(),
        ensures
            r@.len() == self@.dom().len(),
            forall|i: int|
                0 <= i < r@.len() ==> self@.contains_key(#[trigger] r@[i].id) && r@[i]@
                    == self@[r@[i].id],
            forall|i: int, j: int| 0 <= i < j < r@.len() ==> r@[i].id != r@[j].id,
            forall|k: TicketId|
                self@.contains_key(k) ==> exists|i: int|
                    0 <= i < r@.len() && (#[trigger] r@[i].id) == k,
    {
        proof {
            lemma_map_of_finite(self.data@);
        }
        let n = self.data.len();
        let mut r: Vec<&Ticket> = Vec::new();
        let mut i: usize = 0;
        while i < n
            invariant
                n == self.data@.len(),
                0 <= i <= n,
                r@.len() == i,
                forall|j: int| 0 <= j < i ==> (#[trigger] r@[j]).id == self.data@[j].id && r@[j]@
                    == self.data@[j]@,
            decreases n - i,
        {
            r.push(&self.data[i]);
            i += 1;
        }
        proof {
            assert forall|i: int|
                0 <= i < r@.len() implies self@.contains_key(#[trigger] r@[i].id) && r@[i]@
                == self@[r@[i].id] by {
                lemma_map_of_index(self.data@, i);
            }
            assert forall|k: TicketId| self@.contains_key(k) implies exists|i: int|
                0 <= i < r@.len() && (#[trigger] r@[i].id) == k by {
                lemma_map_of_contains(self.data@, k);
                let i = choose|i: int| 0 <= i < self.data@.len() && self.data@[i].id == k;
                assert(r@[i].id == k);
            }
        }
        r
    }

    /// Read-only lookup: the stored record under the identifier, or nothing
    /// when the identifier is absent.
    pub fn get(&self, id: TicketId) -> (r: Option<&Ticket>)
        requires
            self.wf(),
        ensures
            match r {
                Some(t) => self@.contains_key(id) && t@ == self@[id] && t.id == id,
                None => !self@.contains_key(id),
            },
    {
        proof {
            lemma_map_of_contains(self.data@, id);
        }
        match self.find_index(id) {
            Some(i) => {
                proof {
                    lemma_map_of_index(self.data@, i as int);
                }
                Some(&self.data[i])
            },
            None => None,
        }
    }
    /// Rebuilds a store from a previously saved counter value and ticket
    /// collection.  Accepts exactly the pairs that satisfy the store's
    /// invariant — identifiers unique and each between 1 and the counter —
    /// and refuses everything else.
    pub fn from_parts(current_id: u64, tickets: Vec<Ticket>) -> (r: Option<TicketStore>)
        ensures
            match r {
                Some(store) => store.wf() && store.counter() == current_id && store@ == map_of(
                    tickets@,
                ) && unique_ids(tickets@) && (forall|i: int|
                    0 <= i < tickets@.len() ==> 1 <= #[trigger] tickets@[i].id <= current_id),
                None => !(unique_ids(tickets@) && (forall|i: int|
                    0 <= i < tickets@.len() ==> 1 <= #[trigger] tickets@[i].id <= current_id)),
            },
    {
        let n = tickets.len();
        let mut i: usize = 0;
        while i < n
            invariant
                n == tickets@.len(),
                0 <= i <= n,
                forall|j: int| 0 <= j < i ==> 1 <= #[trigger] tickets@[j].id <= current_id,
                forall|k: int, l: int| 0 <= k < l < i ==> tickets@[k].id != tickets@[l].id,
            decreases n - i,
        {
            let id = tickets[i].id;
            if id < 1 || id > current_id {
                return None;
            }
            let mut j: usize = 0;
            while j < i
                invariant
                    n == tickets@.len(),
                    0 <= j <= i < n,
                    id == tickets@[i as int].id,
                    forall|l: int| 0 <= l < j ==> tickets@[l].id != id,
                decreases i - j,
            {
                if tickets[j].id == id {
                    return None;
                }
                j += 1;
            }
            i += 1;
        }
        Some(TicketStore { current_id, data: tickets })
    }
}

/// Fetching by the identifier a creation returned yields exactly the record
/// that was stored: the draft's title and description, status `ToDo`, and no
/// comments.
pub proof fn lemma_create_then_get(
    m: Map<TicketId, TicketView>,
    id: TicketId,
    title: Seq<char>,
    description: Seq<char>,
)
    ensures
        ({
            let m2 = m.insert(
                id,
                (TicketView { id, title, description, status: Status::ToDo, comments: Seq::empty() }),
            );
            &&& m2.contains_key(id)
            &&& m2[id].title == title
            &&& m2[id].description == description
            &&& m2[id].status == Status::ToDo
            &&& m2[id].comments.len() == 0
        }),
{
}

/// After a deletion the deleted identifier resolves to nothing, and every
/// other ticket is exactly as it was.
pub proof fn lemma_delete_then_get(m: Map<TicketId, TicketView>, id: TicketId)
    ensures
        !m.remove(id).contains_key(id),
        forall|k: TicketId| k != id ==> (m.remove(id).contains_key(k) <==> m.contains_key(k)),
        forall|k: TicketId|
            k != id && m.contains_key(k) ==> m.remove(id)[k] == m[k],
{
}

/// An empty store lists nothing, and each creation grows the listed
/// collection by exactly one: a fresh identifier raises the ticket count
/// from n to n + 1.
pub proof fn lemma_listing_counts(m: Map<TicketId, TicketView>, id: TicketId, t: TicketView)
    requires
        m.dom().finite(),
        !m.contains_key(id),
    ensures
        Map::<TicketId, TicketView>::empty().dom().len() == 0,
        m.insert(id, t).dom().len() == m.dom().len() + 1,
{
    broadcast use vstd::set::axiom_set_insert_len;

    assert(m.insert(id, t).dom() =~= m.dom().insert(id));
    assert(Map::<TicketId, TicketView>::empty().dom() =~= Set::<TicketId>::empty());
}

/// A patch with no fields set writes the record back unchanged: inserting a
/// key's own current value leaves the map exactly as it was.  (That the
/// stored record's identifier field equals its key is part of the store's
/// invariant, see `lemma_wf_facts`.)
pub proof fn lemma_empty_patch_changes_nothing(m: Map<TicketId, TicketView>, id: TicketId)
    requires
        m.contains_key(id),
    ensures
        m.insert(id, m[id]) == m,
{
    assert(m.insert(id, m[id]) =~= m);
}

/// Appending a comment grows the comment sequence by exactly one, preserves
/// every prior comment in order, and puts the new comment last.
pub proof fn lemma_comment_appended(comments: Seq<Seq<char>>, added: Seq<char>)
    ensures
        comments.push(added).len() == comments.len() + 1,
        forall|j: int| 0 <= j < comments.len() ==> comments.push(added)[j] == comments[j],
        comments.push(added)[comments.len() as int] == added,
{
}

} // verus!
