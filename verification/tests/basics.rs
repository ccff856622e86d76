use airicode::bytes::take_line;
use airicode::digest::{hex_prefix, sha256_hex};
use airicode::glob::{glob_matches, segment_matches};
use airicode::paths;
use airicode::plugins::tool_find_file::{Entry, EntryKind};
use airicode::text;
use airicode::utils::hashline::{parse_anchor, render, replace_lines, tag, verify};
use airicode::utils::path_correction::{
    best_candidate, levenshtein, normalize_separators, path_components, CandidateWalk,
    PathCorrectionKind, Scored,
};
use airicode::utils::timeseq::{TimeSeq, TimeSeqGenerator, TIMESTAMP_MASK};

#[test]
fn glob_matches_zero_or_more_path_components() {
    assert!(glob_matches("**/AGENTS.md", "AGENTS.md"));
    assert!(glob_matches("src/ui/**/*.rs", "src/ui/button/main.rs"));
    assert!(!glob_matches("src/ui/*.rs", "src/ui/button/main.rs"));
}

#[test]
fn names_stand_for_themselves() {
    assert!(segment_matches("main.rs", "main.rs"));
    assert!(segment_matches("m?in*", "main.rs"));
    assert!(!segment_matches("m?in", "main.rs"));
    assert!(glob_matches("a/b", "a/b"));
}

#[test]
fn tags_are_deterministic_and_detect_changes() {
    let first = airicode::utils::hashline::format("one\ntwo");
    assert_eq!(first, "1:769|one\n2:3fc|two");
    assert!(verify("one\ntwo", 1, "769"));
    assert!(!verify("ONE\ntwo", 1, "769"));
}

#[test]
fn anchors_require_the_full_three_character_tag() {
    assert_eq!(parse_anchor("12:abc|"), Some((12, "abc")));
    assert!(parse_anchor("12:ab|").is_none());
    assert!(parse_anchor("12:abc|content").is_none());
    assert!(parse_anchor("0:abc|").is_none());
}

#[test]
fn rendered_lines_verify() {
    let source = "a\r\nb\n\nc";
    for line in render(source) {
        assert!(verify(source, line.line, &line.tag));
        assert_eq!(line.tag, tag(&line.text));
    }
    assert_eq!(replace_lines("a\nb\nc\n", 2, 2, "b"), Some("a\nb\nc\n".to_string()));
    assert_eq!(replace_lines("a\nb\n", 3, 3, "c"), None);
}

#[test]
fn issued_values_are_strictly_ordered() {
    let mut generator = TimeSeqGenerator::new();
    let first = generator.generate().unwrap();
    let second = generator.generate().unwrap();
    assert!(second > first);
    assert_ne!(first, second);
}

#[test]
fn a_full_millisecond_is_waited_out() {
    let ahead = TimeSeqGenerator::new().generate().unwrap().timestamp + 30;
    let mut generator = TimeSeqGenerator { state: (ahead << 16) | 0xffff };
    assert_eq!(generator.issue(ahead), None);
    let next = TimeSeq::new(&mut generator).unwrap();
    assert!(next.timestamp > ahead);
    assert_eq!(next.sequence, 0);
    assert!(TimeSeq::now(&mut generator).unwrap() > next);
}

#[test]
fn times_increase_when_the_clock_goes_back() {
    let mut generator = TimeSeqGenerator::new();
    let first = generator.issue(100).unwrap();
    let second = generator.issue(50).unwrap();
    let third = generator.issue(101).unwrap();
    assert!(first < second);
    assert!(second < third);
    assert_eq!(third, TimeSeq::from_parts(101, 0));
    let mut full = TimeSeqGenerator::new();
    full.issue(7).unwrap();
    for _ in 0..65535 {
        full.issue(7).unwrap();
    }
    assert_eq!(full.issue(7), None);
    assert!(full.issue(8).is_some());
    assert!(TimeSeqGenerator::new().issue(TIMESTAMP_MASK).is_some());
}

#[test]
fn distances_tell_texts_apart() {
    let chars = |s: &str| s.chars().collect::<Vec<char>>();
    assert_eq!(levenshtein(&chars("kitten"), &chars("sitting")), 3);
    assert_eq!(levenshtein(&chars("same"), &chars("same")), 0);
    assert_eq!(levenshtein(&chars(""), &chars("abc")), 3);
}

#[test]
fn the_best_candidate_is_chosen() {
    let list = vec![
        Scored { path: "b".to_string(), score: 5 },
        Scored { path: "a".to_string(), score: 7 },
        Scored { path: "c".to_string(), score: 6 },
    ];
    assert_eq!(best_candidate(&list, 5), Some(1));
    assert_eq!(best_candidate(&list, 8), None);
    assert_eq!(path_components("./a/b"), vec!["a", "b"]);
    assert_eq!(normalize_separators("a\\b/c", '/'), "a/b/c");
    assert_eq!(normalize_separators("a\\b/c", '\\'), "a\\b\\c");
    let mut walk = CandidateWalk::new(PathCorrectionKind::File);
    walk.next().unwrap();
    walk.listed(
        PathCorrectionKind::File,
        &[
            Entry { path: "src".to_string(), kind: EntryKind::Directory },
            Entry { path: "a.rs".to_string(), kind: EntryKind::File },
        ],
    );
    assert!(walk.candidates.contains(&"a.rs".to_string()));
    assert!(!walk.candidates.contains(&"src".to_string()));
    assert_eq!(walk.next(), Some("src".to_string()));
}

#[test]
fn digests_are_spelled_in_hexadecimal() {
    assert_eq!(
        sha256_hex(b"abc"),
        "ba7816bf8f01cfea414140de5dae2223b00361a396177a9cb410ff61f20015ad"
    );
    assert_eq!(hex_prefix(&[0x0f, 0xa0, 0x11], 2), "0fa0");
}

#[test]
fn lines_do_not_depend_on_pieces() {
    let mut buffer = b"one\ntw".to_vec();
    assert_eq!(take_line(&mut buffer), Some(b"one\n".to_vec()));
    assert_eq!(take_line(&mut buffer), None);
    buffer.extend_from_slice(b"o\n");
    assert_eq!(take_line(&mut buffer), Some(b"two\n".to_vec()));
    assert!(buffer.is_empty());
}

#[test]
fn paths_are_joined_and_compared_by_parts() {
    assert_eq!(paths::join("/a", "b/c"), "/a/b/c");
    assert_eq!(paths::join("/a", "/b"), "/b");
    assert!(paths::under("/a/b", "/a"));
    assert!(!paths::under("/ab", "/a"));
    assert_eq!(paths::strip_prefix("/a/b/c", "/a"), Some("b/c".to_string()));
    assert_eq!(paths::file_name("a/b.txt"), Some("b.txt".to_string()));
    assert_eq!(paths::parent("a/b.txt"), Some("a".to_string()));
    assert!(paths::same_path("a//b/", "a/b"));
    assert!(paths::less_path("a/b", "a-b"));
    assert_eq!(paths::normalize("./a/./b"), "a/b");
    assert!(!paths::inside("a/../../b"));
}

#[test]
fn texts_are_sorted_split_and_trimmed() {
    let list = vec!["b".to_string(), "a".to_string(), "ab".to_string()];
    assert_eq!(text::sort(&list), vec!["a", "ab", "b"]);
    assert_eq!(text::split_lines("a\r\nb\n"), vec!["a", "b"]);
    assert_eq!(text::split_char("a,,b", ','), vec!["a", "", "b"]);
    assert_eq!(text::trim("\u{2003} a \n"), "a");
    assert_eq!(text::join(&list, "-"), "b-a-ab");
    assert_eq!(text::decimal_text(0), "0");
    assert_eq!(text::signed_text(-42), "-42");
    assert_eq!(text::parse_usize("12"), Some(12));
    assert_eq!(text::parse_usize("x"), None);
    assert_eq!(text::byte_len("aé"), 3);
}

#[test]
fn shown_anchors_are_read_back() {
    for line in render("one\ntwo\n") {
        let shown = airicode::utils::hashline::format_hash_line(&line);
        let anchor = &shown[..shown.find('|').unwrap() + 1];
        assert_eq!(parse_anchor(anchor), Some((line.line, line.tag.as_str())));
    }
}

#[test]
fn times_are_ordered_by_clock_and_number() {
    let at = TimeSeq::from_parts;
    assert!(at(1, 9) < at(2, 0));
    assert!(at(2, 0) > at(1, 9));
    assert!(at(2, 3) < at(2, 4));
    assert!(at(2, 3) <= at(2, 3) && at(2, 3) >= at(2, 3));
    let mut list = vec![at(2, 1), at(1, 5), at(2, 0)];
    list.sort();
    assert_eq!(list, vec![at(1, 5), at(2, 0), at(2, 1)]);
    assert_eq!(list.iter().max(), Some(&at(2, 1)));
}

#[test]
fn characters_are_counted() {
    assert_eq!(text::char_count(""), 0);
    assert_eq!(text::char_count("a\u{e9}\u{1f600}"), 3);
}
