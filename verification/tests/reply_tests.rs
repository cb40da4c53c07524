use spm_core::reply::ReplyTally;

#[test]
fn tally_counts_the_generated_pieces_of_a_whole_reply() {
    let mut t = ReplyTally::new();
    assert!(!t.record(""));
    assert!(t.record("Hel"));
    assert!(!t.record("lo"));
    assert!(!t.record(""));
    assert_eq!(t.text, "Hello");
    assert_eq!(t.tokens, 2);
    assert!(t.started);
}

#[test]
fn tally_skips_end_marker_of_a_stream() {
    let mut t = ReplyTally::new();
    assert_eq!(t.record_streamed("Hi"), Some(true));
    assert_eq!(t.record_streamed(" there"), Some(false));
    assert_eq!(t.record_streamed(""), None);
    assert_eq!(t.text, "Hi there");
    assert_eq!(t.tokens, 2);
}
