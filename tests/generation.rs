use std::collections::HashSet;

use subenum::brute::EnumBuilder;
use subenum::pattern::{default_dictionary, DictBuilder};

fn drain(mut g: EnumBuilder) -> Vec<String> {
    let mut out = Vec::new();
    while let Some(c) = g.next_candidate() {
        out.push(c);
    }
    out
}

#[test]
fn brute_force_length_one_gives_36() {
    let all = drain(EnumBuilder::new(1, 1));
    assert_eq!(all.len(), 36);
    assert_eq!(all[0], "a");
    assert_eq!(all[25], "z");
    assert_eq!(all[26], "0");
    assert_eq!(all[35], "9");
    assert!(all.iter().all(|c| !c.starts_with('-')));
}

#[test]
fn brute_force_range_count_and_order() {
    let all = drain(EnumBuilder::new(1, 2));
    // 37^1 - 37^0 + 37^2 - 37^1
    assert_eq!(all.len(), 36 + 36 * 37);
    assert_eq!(all[36], "aa");
    assert_eq!(all[37], "ab");
    assert_eq!(all[36 + 36], "a-");
    assert_eq!(all.last().unwrap(), "9-");
    assert!(all.iter().all(|c| !c.starts_with('-')));
    let distinct: HashSet<&String> = all.iter().collect();
    assert_eq!(distinct.len(), all.len());
}

#[test]
fn brute_force_length_three_count() {
    let all = drain(EnumBuilder::new(3, 3));
    assert_eq!(all.len(), 37 * 37 * 37 - 37 * 37);
    assert_eq!(all[0], "aaa");
    let distinct: HashSet<&String> = all.iter().collect();
    assert_eq!(distinct.len(), all.len());
}

#[test]
fn brute_force_stream_stays_exhausted() {
    let mut g = EnumBuilder::new(1, 1);
    for _ in 0..36 {
        assert!(g.next_candidate().is_some());
    }
    assert_eq!(g.next_candidate(), None);
    assert_eq!(g.next_candidate(), None);
}

#[test]
fn number_placeholder_expands_in_pool_order() {
    let got = DictBuilder::expand_line("%NUMBER%test");
    // the digit pool also holds the hyphen, last
    assert_eq!(got.len(), 11);
    for d in 0..10 {
        assert_eq!(got[d], format!("{}test", d));
    }
    assert_eq!(got[10], "-test");
}

#[test]
fn two_placeholders_give_the_product() {
    let got = DictBuilder::expand_line("a%ALPHA%%NUMBER%b");
    assert_eq!(got.len(), 27 * 11);
    assert_eq!(got[0], "aa0b");
    assert_eq!(got[1], "aa1b");
    assert_eq!(got[10], "aa-b");
    assert_eq!(got[11], "ab0b");
    assert!(got.contains(&"az9b".to_string()));
    assert!(got.contains(&"a--b".to_string()));
}

#[test]
fn alphanumber_placeholder() {
    let got = DictBuilder::expand_line("%ALPHANUMBER%");
    assert_eq!(got.len(), 37);
    assert_eq!(got[0], "0");
    assert_eq!(got[10], "a");
    assert_eq!(got[36], "-");
}

#[test]
fn trailing_dot_is_stripped() {
    assert_eq!(DictBuilder::expand_line("foo."), DictBuilder::expand_line("foo"));
    assert_eq!(DictBuilder::expand_line("foo."), vec!["foo".to_string()]);
    assert_eq!(DictBuilder::expand_line("foo..."), vec!["foo".to_string()]);
}

#[test]
fn unknown_placeholder_is_literal() {
    assert_eq!(DictBuilder::expand_line("%UNKNOWN%x"), vec!["%UNKNOWN%x".to_string()]);
    assert_eq!(DictBuilder::expand_line("a%%b"), vec!["a%%b".to_string()]);
}

#[test]
fn extract_line_segments() {
    assert_eq!(DictBuilder::extract_line("a%ALPHA%b"), vec!["a", "%ALPHA%", "b"]);
    assert_eq!(DictBuilder::extract_line("%NUMBER%test"), vec!["%NUMBER%", "test"]);
    assert_eq!(DictBuilder::extract_line("ab%cd"), vec!["ab", "%cd"]);
    assert_eq!(DictBuilder::extract_line("plain"), vec!["plain"]);
    assert!(DictBuilder::extract_line("").is_empty());
}

#[test]
fn dictionary_skips_blank_and_comment_lines() {
    let got = DictBuilder::candidates("www\n\n# comment\n  api  \r\nfoo.\nlast");
    assert_eq!(got, vec!["www", "api", "foo", "last"]);
}

#[test]
fn dictionary_line_of_dots_gives_nothing() {
    assert!(DictBuilder::candidates("...\n").is_empty());
}

#[test]
fn empty_dictionary_gives_nothing() {
    assert!(DictBuilder::candidates("").is_empty());
    assert!(DictBuilder::candidates("\n\n# only comments\n").is_empty());
}

#[test]
fn default_dictionary_expands() {
    let got = DictBuilder::candidates(default_dictionary());
    assert!(got.contains(&"www".to_string()));
    assert!(got.contains(&"web7".to_string()));
}
