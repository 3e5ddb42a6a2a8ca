use ticket_tracker::models::{
    decimal_string, Comment, Status, TicketDraft, TicketPatch, Title, ValidationError,
};
use ticket_tracker::store::TicketStore;

#[test]
fn title_round_trips_for_non_empty_text() {
    let title = Title::new("Fix bug".to_string()).unwrap();
    assert_eq!(title.text(), "Fix bug");

    let untrimmed = Title::new("  padded  ".to_string()).unwrap();
    assert_eq!(untrimmed.text(), "  padded  ");
}

#[test]
fn title_rejects_text_that_is_empty_after_trimming() {
    assert_eq!(Title::new("".to_string()), Err(ValidationError::EmptyTitle));
    assert_eq!(
        Title::new("   ".to_string()),
        Err(ValidationError::EmptyTitle)
    );
    assert_eq!(
        Title::new("\t\r\n".to_string()),
        Err(ValidationError::EmptyTitle)
    );
    assert_eq!(
        Title::new("\u{3000}\u{00A0}".to_string()),
        Err(ValidationError::EmptyTitle)
    );
}

#[test]
fn comment_round_trips_for_non_empty_text() {
    let comment = Comment::new("Reproduced".to_string()).unwrap();
    assert_eq!(comment.text(), "Reproduced");
}

#[test]
fn comment_rejects_text_that_is_empty_after_trimming() {
    assert_eq!(
        Comment::new("".to_string()),
        Err(ValidationError::EmptyComment)
    );
    assert_eq!(
        Comment::new(" \t ".to_string()),
        Err(ValidationError::EmptyComment)
    );
}

#[test]
fn status_parses_case_insensitively() {
    assert_eq!(Status::parse("todo"), Ok(Status::ToDo));
    assert_eq!(Status::parse("To-Do"), Ok(Status::ToDo));
    assert_eq!(Status::parse("TODO"), Ok(Status::ToDo));
    assert_eq!(Status::parse("inprogress"), Ok(Status::InProgress));
    assert_eq!(Status::parse("In-Progress"), Ok(Status::InProgress));
    assert_eq!(Status::parse("BLOCKED"), Ok(Status::Blocked));
    assert_eq!(Status::parse("blocked"), Ok(Status::Blocked));
    assert_eq!(Status::parse("Done"), Ok(Status::Done));
}

#[test]
fn status_rejects_unknown_text() {
    assert_eq!(
        Status::parse("later"),
        Err(ValidationError::InvalidStatusText)
    );
    assert_eq!(Status::parse(""), Err(ValidationError::InvalidStatusText));
    assert_eq!(
        Status::parse("to do"),
        Err(ValidationError::InvalidStatusText)
    );
}

#[test]
fn status_labels_match_variant_names() {
    assert_eq!(Status::ToDo.label(), "ToDo");
    assert_eq!(Status::InProgress.label(), "InProgress");
    assert_eq!(Status::Blocked.label(), "Blocked");
    assert_eq!(Status::Done.label(), "Done");
}

#[test]
fn decimal_rendering_is_exact() {
    assert_eq!(decimal_string(0), "0");
    assert_eq!(decimal_string(7), "7");
    assert_eq!(decimal_string(42), "42");
    assert_eq!(decimal_string(10000), "10000");
    assert_eq!(decimal_string(u64::MAX), "18446744073709551615");
}

#[test]
fn rendering_lists_every_field_and_comment() {
    let mut store = TicketStore::new();
    let id = store.create(TicketDraft {
        title: Title::new("Fix bug".to_string()).unwrap(),
        description: "NPE on login".to_string(),
    });
    store
        .add_comment_to_ticket(id, Comment::new("Reproduced".to_string()).unwrap())
        .unwrap();
    store
        .add_comment_to_ticket(id, Comment::new("Fixed".to_string()).unwrap())
        .unwrap();
    let rendered = store.get(id).unwrap().render();
    assert_eq!(
        rendered,
        "Ticket:\n\tId:1\n\tTitle:Fix bug\n\tDescription:NPE on login\n\tStatus:ToDo\n\tComments:\n\t- Reproduced\n\t- Fixed\n"
    );
}

#[test]
fn scenario_create_comment_move_delete() {
    let mut store = TicketStore::new();
    let id = store.create(TicketDraft {
        title: Title::new("Fix bug".to_string()).unwrap(),
        description: "NPE on login".to_string(),
    });
    assert_eq!(id, 1);
    assert_eq!(store.get(1).unwrap().status, Status::ToDo);

    let added = store.add_comment_to_ticket(1, Comment::new("Reproduced".to_string()).unwrap());
    assert_eq!(added, Some(()));
    let comments: Vec<&str> = store.get(1).unwrap().comments.iter().map(|c| c.text()).collect();
    assert_eq!(comments, vec!["Reproduced"]);

    assert_eq!(store.update_ticket_status(1, Status::Done), Some(()));
    assert_eq!(store.get(1).unwrap().status, Status::Done);

    let deleted = store.delete(1).unwrap();
    assert_eq!(deleted.0.status, Status::Done);
    assert_eq!(deleted.0.comments.len(), 1);
    assert_eq!(store.get(1), None);
}

#[test]
fn patch_with_only_description_leaves_title_unchanged() {
    let mut store = TicketStore::new();
    let id = store.create(TicketDraft {
        title: Title::new("Original title".to_string()).unwrap(),
        description: "Original description".to_string(),
    });

    let result = store.update_ticket(
        id,
        TicketPatch {
            title: None,
            description: Some("New description".to_string()),
        },
    );
    assert_eq!(result, Some(()));

    let ticket = store.get(id).unwrap();
    assert_eq!(ticket.title.text(), "Original title");
    assert_eq!(ticket.description, "New description");
}

#[test]
fn updating_a_missing_ticket_returns_none() {
    let mut store = TicketStore::new();
    let result = store.update_ticket(
        7,
        TicketPatch {
            title: None,
            description: Some("New description".to_string()),
        },
    );
    assert_eq!(result, None);
    assert_eq!(store.update_ticket_status(7, Status::Blocked), None);
}

#[test]
fn identifiers_increase_and_are_never_reused() {
    let mut store = TicketStore::new();
    let draft = |n: u64| TicketDraft {
        title: Title::new(format!("Ticket {}", n)).unwrap(),
        description: String::new(),
    };
    assert_eq!(store.create(draft(1)), 1);
    assert_eq!(store.create(draft(2)), 2);
    assert_eq!(store.create(draft(3)), 3);
    assert_eq!(store.current_counter(), 3);

    store.delete(2).unwrap();
    assert_eq!(store.create(draft(4)), 4);
    assert_eq!(store.current_counter(), 4);
}

#[test]
fn listing_returns_each_created_ticket_once() {
    let mut store = TicketStore::new();
    for n in 1..=3u64 {
        store.create(TicketDraft {
            title: Title::new(format!("Ticket {}", n)).unwrap(),
            description: format!("Description {}", n),
        });
    }
    let mut titles: Vec<String> = store
        .list()
        .into_iter()
        .map(|t| t.title.text().to_string())
        .collect();
    titles.sort();
    assert_eq!(titles, vec!["Ticket 1", "Ticket 2", "Ticket 3"]);
}

#[test]
fn store_round_trips_through_its_parts() {
    let mut store = TicketStore::new();
    let id = store.create(TicketDraft {
        title: Title::new("Fix bug".to_string()).unwrap(),
        description: "NPE on login".to_string(),
    });
    store.update_ticket_status(id, Status::InProgress).unwrap();

    let counter = store.current_counter();
    let tickets: Vec<_> = store.list().into_iter().map(|t| t.to_owned()).collect();

    let rebuilt = TicketStore::from_parts(counter, tickets).expect("saved parts should be valid");
    assert_eq!(rebuilt.current_counter(), counter);
    let ticket = rebuilt.get(id).unwrap();
    assert_eq!(ticket.title.text(), "Fix bug");
    assert_eq!(ticket.status, Status::InProgress);
}

#[test]
fn rebuilding_from_invalid_parts_is_refused() {
    let ticket = |id: u64| {
        let mut store = TicketStore::new();
        for _ in 0..id {
            store.create(TicketDraft {
                title: Title::new("Some ticket".to_string()).unwrap(),
                description: String::new(),
            });
        }
        store.get(id).unwrap().to_owned()
    };

    // Duplicate identifiers.
    assert!(TicketStore::from_parts(5, vec![ticket(1), ticket(1)]).is_none());
    // An identifier above the counter.
    assert!(TicketStore::from_parts(1, vec![ticket(2)]).is_none());
    // A valid pair is accepted.
    assert!(TicketStore::from_parts(2, vec![ticket(1), ticket(2)]).is_some());
}
