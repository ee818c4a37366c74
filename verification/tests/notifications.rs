use roostbar::notifications;
use roostbar::notifications::{Entry, Event, Listed, Step};

fn note(id: u32, summary: &str) -> Entry {
    Entry {
        id,
        app_name: "app".to_string(),
        summary: summary.to_string(),
        body: String::new(),
        arrived: 10,
        open: true,
    }
}

#[test]
fn a_reply_becomes_a_list() {
    let reply = vec![Listed {
        id: 4,
        app_name: "mail".to_string(),
        icon: "envelope".to_string(),
        summary: "New".to_string(),
        body: "Hello".to_string(),
        arrived: 99,
        open: false,
    }];
    assert_eq!(
        notifications::list(Some(reply)),
        vec![Entry {
            id: 4,
            app_name: "mail".to_string(),
            summary: "New".to_string(),
            body: "Hello".to_string(),
            arrived: 99,
            open: false,
        }]
    );
    assert!(notifications::list(None).is_empty());
}

#[test]
fn a_removed_notification_is_gone() {
    let mut notes = vec![note(1, "a"), note(2, "b"), note(1, "c"), note(3, "d")];
    notifications::remove(&mut notes, 1);
    assert_eq!(notes, vec![note(2, "b"), note(3, "d")]);
    notifications::remove(&mut notes, 1);
    assert_eq!(notes.len(), 2);
    notifications::remove(&mut notes, 3);
    notifications::remove(&mut notes, 2);
    assert!(notes.is_empty());
}

#[test]
fn lists_are_the_same_in_every_field() {
    let a = vec![note(1, "a"), note(2, "b")];
    assert!(notifications::same(&a, &vec![note(1, "a"), note(2, "b")]));
    assert!(!notifications::same(&a, &vec![note(2, "b"), note(1, "a")]));
    assert!(!notifications::same(&a, &vec![note(1, "a")]));
    for change in 0..6 {
        let mut b = vec![note(1, "a"), note(2, "b")];
        match change {
            0 => b[1].id = 9,
            1 => b[1].app_name = "other".to_string(),
            2 => b[1].summary = "other".to_string(),
            3 => b[1].body = "other".to_string(),
            4 => b[1].arrived = 11,
            _ => b[1].open = false,
        }
        assert!(!notifications::same(&a, &b));
    }
}

#[test]
fn follows_the_centre() {
    assert_eq!(notifications::RETRY, 5);
    assert_eq!(notifications::follow(Event::Unreachable), Step::Reconnect);
    assert_eq!(notifications::follow(Event::Subscribed), Step::ShareAndSend);
    assert_eq!(notifications::follow(Event::Sent { heard: true }), Step::Wait);
    assert_eq!(notifications::follow(Event::Changed), Step::Send);
    assert_eq!(notifications::follow(Event::Ended), Step::Reconnect);
    assert_eq!(notifications::follow(Event::Sent { heard: false }), Step::Stop);
}
