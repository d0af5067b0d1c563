use shuttle_christmas::sockets::{react, same_text, Incoming, Reaction};

#[test]
fn serve_is_sent_back() {
    assert_eq!(react(&Incoming::Text("serve".to_string())), Reaction::Echo);
}

#[test]
fn everything_else_ends_the_exchange() {
    for text in ["", "Serve", "serve ", " serve", "serv", "ping", "serveserve"] {
        assert_eq!(react(&Incoming::Text(text.to_string())), Reaction::Close, "{text}");
    }
    assert_eq!(react(&Incoming::Other), Reaction::Close);
    assert_eq!(react(&Incoming::Failed), Reaction::Close);
}

#[test]
fn texts_are_compared_by_their_characters() {
    assert!(same_text("", ""));
    assert!(same_text("héllo 😀", "héllo 😀"));
    assert!(!same_text("héllo", "hello"));
    assert!(!same_text("a", "ab"));
    assert!(!same_text("ab", "a"));
}
