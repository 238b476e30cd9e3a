use server_stats::scan::{discoverable_bodies, extract_identifiers, is_known_bad, ChatMessage};

#[test]
fn regex_extraction() {
    assert_eq!(
        extract_identifiers("join #general:example.org and !abc123:example.org please"),
        vec!["#general:example.org".to_string(), "!abc123:example.org".to_string()]
    );
}

#[test]
fn text_without_references_gives_nothing() {
    assert_eq!(extract_identifiers("nothing to see here"), Vec::<String>::new());
    assert_eq!(extract_identifiers(""), Vec::<String>::new());
    assert_eq!(extract_identifiers("#nocolon !alsonot"), Vec::<String>::new());
}

#[test]
fn reference_ends_at_a_letter_or_digit() {
    assert_eq!(extract_identifiers("see #room:example.org."), vec!["#room:example.org"]);
    assert_eq!(extract_identifiers("(#a_b-c=d:sub.example.org)"), vec!["#a_b-c=d:sub.example.org"]);
    assert_eq!(extract_identifiers("#\u{1f980}:example.org"), vec!["#\u{1f980}:example.org"]);
}

#[test]
fn known_bad_identifiers() {
    for bad in [
        "#emacs:matrix.org",
        "!TEwfEWdDwdaFazXmwD:matrix.org",
        "#nextcloud_:matrix.org",
        "#Nextcloud:matrix.org",
        "#NEXTCLOUD:matrix.org",
        "#NextCloud:matrix.org",
        "!UGYpXmlyESJlkXkarj:matrix.org",
    ] {
        assert!(is_known_bad(bad));
    }
    assert!(!is_known_bad("#nextcloud:matrix.org"));
    assert!(!is_known_bad("#emacs:example.org"));
    assert!(!is_known_bad(""));
}

#[test]
fn only_text_of_others_is_searched() {
    let messages = vec![
        ChatMessage { sender: "@a:x".to_string(), body: Some("one".to_string()) },
        ChatMessage { sender: "@bot:x".to_string(), body: Some("mine".to_string()) },
        ChatMessage { sender: "@a:x".to_string(), body: None },
        ChatMessage { sender: "@b:x".to_string(), body: Some("two".to_string()) },
    ];
    assert_eq!(discoverable_bodies(&messages, "@bot:x"), vec!["one", "two"]);
    assert_eq!(discoverable_bodies(&messages, "@nobody:x"), vec!["one", "mine", "two"]);
    assert_eq!(discoverable_bodies(&vec![], "@bot:x"), Vec::<String>::new());
}
