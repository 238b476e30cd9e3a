use server_stats::order::{compare_bytes, compare_text, same_text, Rank};

#[test]
fn bytes_compare_lexicographically() {
    assert_eq!(compare_bytes(&[], &[]), Rank::Same);
    assert_eq!(compare_bytes(&[], &[0]), Rank::Before);
    assert_eq!(compare_bytes(&[0], &[]), Rank::After);
    assert_eq!(compare_bytes(&[1, 2], &[1, 3]), Rank::Before);
    assert_eq!(compare_bytes(&[1, 2, 0], &[1, 2]), Rank::After);
    assert_eq!(compare_bytes(&[2], &[1, 9, 9]), Rank::After);
    assert_eq!(compare_bytes(&[1, 2, 3], &[1, 2, 3]), Rank::Same);
}

#[test]
fn text_compares_as_str_does() {
    let texts = ["", "A", "a", "ab", "b", "Z", "\u{e9}", "z\u{e9}", "+", "/", "0"];
    for a in texts {
        for b in texts {
            let expected = if a < b {
                Rank::Before
            } else if a == b {
                Rank::Same
            } else {
                Rank::After
            };
            assert_eq!(compare_text(a, b), expected);
            assert_eq!(same_text(a, b), a == b);
        }
    }
}
