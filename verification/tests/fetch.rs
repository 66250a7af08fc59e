use collection_db::fetch::{
    field_before, hash_of_line, line_of, link_of_line, Answer, BeatmapInfo, Failure, FetchLog,
    INVALID_URL, MISSING_CHECKSUM,
};

fn info(checksum: &str, mapset_id: u32) -> BeatmapInfo {
    BeatmapInfo { checksum: checksum.to_string(), mapset_id }
}

fn failure(reference: &str, reason: &str) -> Failure {
    Failure { reference: reference.to_string(), reason: reason.to_string() }
}

#[test]
fn a_cache_line_is_checksum_bar_set_newline() {
    assert_eq!(line_of(&info("d41d8cd98f00b204e9800998ecf8427e", 39804)), "d41d8cd98f00b204e9800998ecf8427e|39804\n");
    assert_eq!(line_of(&info("", 0)), "|0\n");
    assert_eq!(line_of(&info("x", u32::MAX)), "x|4294967295\n");
}

#[test]
fn a_cache_line_gives_its_checksum_back() {
    let line = line_of(&info("d41d8cd98f00b204e9800998ecf8427e", 39804));
    assert_eq!(hash_of_line(&line), Some("d41d8cd98f00b204e9800998ecf8427e".to_string()));
    assert_eq!(hash_of_line(line.trim_end_matches('\n')), Some("d41d8cd98f00b204e9800998ecf8427e".to_string()));
}

#[test]
fn the_checksum_is_the_trimmed_first_field() {
    assert_eq!(hash_of_line("abc|1"), Some("abc".to_string()));
    assert_eq!(hash_of_line("  abc  |1|2"), Some("abc".to_string()));
    assert_eq!(hash_of_line("abc"), Some("abc".to_string()));
    assert_eq!(hash_of_line(" a b \t"), Some("a b".to_string()));
    assert_eq!(hash_of_line(""), None);
    assert_eq!(hash_of_line("   "), None);
    assert_eq!(hash_of_line("|abc"), None);
    assert_eq!(hash_of_line("  |abc"), None);
}

#[test]
fn the_first_field_ends_at_the_separator() {
    assert_eq!(field_before("a|b|c", '|'), "a");
    assert_eq!(field_before("abc", '|'), "abc");
    assert_eq!(field_before("|", '|'), "");
    assert_eq!(field_before("", '|'), "");
    assert_eq!(field_before("é♪/x", '/'), "é♪");
}

#[test]
fn links_are_trimmed_lines_that_are_no_comments() {
    assert_eq!(link_of_line("https://osu.ppy.sh/b/1"), Some("https://osu.ppy.sh/b/1".to_string()));
    assert_eq!(link_of_line("  129891 \r"), Some("129891".to_string()));
    assert_eq!(link_of_line(""), None);
    assert_eq!(link_of_line(" \t "), None);
    assert_eq!(link_of_line("# a comment"), None);
    assert_eq!(link_of_line("   #1"), None);
    assert_eq!(link_of_line("a # b"), Some("a # b".to_string()));
}

#[test]
fn a_reference_that_names_nothing_is_recorded() {
    let mut log = FetchLog::new();
    assert_eq!(log.begin("not a link"), None);
    assert_eq!(log.begin("https://osu.ppy.sh/b/129891"), Some(129891));
    assert_eq!(log.begin("77"), Some(77));
    assert_eq!(
        log,
        FetchLog { results: vec![], failures: vec![failure("not a link", "Invalid URL format")] }
    );
    assert_eq!(INVALID_URL, "Invalid URL format");
}

#[test]
fn answers_are_recorded_in_order() {
    let mut log = FetchLog::new();
    assert_eq!(log, FetchLog { results: vec![], failures: vec![] });
    let line = log.record(
        "https://osu.ppy.sh/b/1",
        Answer::Found { checksum: Some("d41d8cd98f00b204e9800998ecf8427e".to_string()), mapset_id: 5 },
    );
    assert_eq!(line, Some("d41d8cd98f00b204e9800998ecf8427e|5\n".to_string()));
    assert_eq!(log.record("2", Answer::Found { checksum: None, mapset_id: 6 }), None);
    assert_eq!(log.record("3", Answer::Failed { reason: "404 Not Found".to_string() }), None);
    let line = log.record(
        "4",
        Answer::Found { checksum: Some("0cc175b9c0f1b6a831c399e269772661".to_string()), mapset_id: 7 },
    );
    assert_eq!(line, Some("0cc175b9c0f1b6a831c399e269772661|7\n".to_string()));
    assert_eq!(
        log,
        FetchLog {
            results: vec![
                info("d41d8cd98f00b204e9800998ecf8427e", 5),
                info("0cc175b9c0f1b6a831c399e269772661", 7),
            ],
            failures: vec![failure("2", "Missing checksum"), failure("3", "404 Not Found")],
        }
    );
    assert_eq!(MISSING_CHECKSUM, "Missing checksum");
}
