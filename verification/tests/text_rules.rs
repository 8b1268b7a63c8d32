use rgit::ignore::{parse_ignore_lines, should_ignore};
use rgit::paths::{escape_path, unescape_path};
use rgit::util::compare_strings;

#[test]
fn escape_replaces_separators_with_underscores() {
    assert_eq!(escape_path(&b"dir/sub/file.txt".to_vec()), b"dir_sub_file.txt".to_vec());
    assert_eq!(escape_path(&b"plain.txt".to_vec()), b"plain.txt".to_vec());
    assert_eq!(escape_path(&Vec::new()), Vec::<u8>::new());
}

#[test]
fn escape_writes_special_bytes_as_pairs() {
    // a literal underscore and a literal percent get two-byte encodings,
    // so no path can collide with another's storage key
    assert_eq!(escape_path(&b"a_b".to_vec()), b"a%ub".to_vec());
    assert_eq!(escape_path(&b"a%b".to_vec()), b"a%pb".to_vec());
    assert_eq!(escape_path(&b"a_/%b".to_vec()), b"a%u_%pb".to_vec());
}

#[test]
fn unescape_restores_separators() {
    assert_eq!(unescape_path(&b"dir_sub_file.txt".to_vec()), b"dir/sub/file.txt".to_vec());
    assert_eq!(
        unescape_path(&escape_path(&b"a/b/c".to_vec())),
        b"a/b/c".to_vec()
    );
}

#[test]
fn escaping_round_trips_every_path() {
    let paths: [&[u8]; 7] =
        [b"a/b", b"a_b", b"a%b", b"a%ub", b"a__b", b"%%//__", b"dir/with_underscore/f.txt"];
    for p in paths {
        assert_eq!(unescape_path(&escape_path(&p.to_vec())), p.to_vec());
    }
}

#[test]
fn distinct_paths_get_distinct_keys() {
    // bare substitution would conflate 'a/b' with 'a_b'; the escape pair
    // keeps them apart
    let with_slash = escape_path(&b"a/b".to_vec());
    let with_underscore = escape_path(&b"a_b".to_vec());
    assert_eq!(with_slash, b"a_b".to_vec());
    assert_eq!(with_underscore, b"a%ub".to_vec());
    assert_ne!(with_slash, with_underscore);
}

#[test]
fn unescape_keeps_malformed_escapes_bare() {
    // keys the encoder never produces decode leniently, byte for byte
    assert_eq!(unescape_path(&b"a%".to_vec()), b"a%".to_vec());
    assert_eq!(unescape_path(&b"a%xb".to_vec()), b"a%xb".to_vec());
}

#[test]
fn ignore_file_drops_comments_and_blank_lines() {
    let content = b"target\n#comment\n\nnode_modules\n".to_vec();
    let pats = parse_ignore_lines(&content);
    assert_eq!(pats.len(), 2);
    assert_eq!(pats[0], b"target".to_vec());
    assert_eq!(pats[1], b"node_modules".to_vec());
}

#[test]
fn ignore_file_without_trailing_newline() {
    let content = b"#only a comment\nkeep-me".to_vec();
    let pats = parse_ignore_lines(&content);
    assert_eq!(pats, vec![b"keep-me".to_vec()]);
}

#[test]
fn empty_ignore_file_yields_no_patterns() {
    assert_eq!(parse_ignore_lines(&Vec::new()).len(), 0);
}

#[test]
fn should_ignore_matches_whole_names_only() {
    let pats = vec![b"target".to_vec(), b".ignore".to_vec()];
    assert!(should_ignore(&b"target".to_vec(), &pats));
    assert!(should_ignore(&b".ignore".to_vec(), &pats));
    assert!(!should_ignore(&b"target2".to_vec(), &pats));
    assert!(!should_ignore(&b"src".to_vec(), &pats));
    assert!(!should_ignore(&b"anything".to_vec(), &Vec::new()));
}

#[test]
fn compare_strings_is_exact_equality() {
    assert!(compare_strings("abc", "abc"));
    assert!(!compare_strings("abc", "abd"));
    assert!(!compare_strings("abc", "abcd"));
    assert!(compare_strings("", ""));
}
