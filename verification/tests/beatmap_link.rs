use collection_db::beatmap_link::{extract_beatmap_id, id_from_parts, split_at_slashes, UrlParts};

fn parts(segments: Option<&[&str]>, fragment: Option<&str>) -> UrlParts {
    UrlParts {
        segments: segments.map(|s| s.iter().map(|x| x.to_string()).collect()),
        fragment: fragment.map(|f| f.to_string()),
    }
}

#[test]
fn a_bare_number_is_the_beatmap() {
    assert_eq!(extract_beatmap_id("129891"), Some(129891));
    assert_eq!(extract_beatmap_id("+7"), Some(7));
    assert_eq!(extract_beatmap_id("0"), Some(0));
}

#[test]
fn the_path_names_the_beatmap() {
    assert_eq!(extract_beatmap_id("https://osu.ppy.sh/beatmaps/129891"), Some(129891));
    assert_eq!(extract_beatmap_id("https://osu.ppy.sh/b/129891"), Some(129891));
    assert_eq!(extract_beatmap_id("https://osu.ppy.sh/b/129891?m=0"), Some(129891));
    assert_eq!(extract_beatmap_id("https://osu.ppy.sh/beatmaps/129891/"), Some(129891));
    assert_eq!(extract_beatmap_id("http://old.ppy.sh/b/5#osu/6"), Some(5));
}

#[test]
fn the_fragment_names_the_beatmap() {
    assert_eq!(extract_beatmap_id("https://osu.ppy.sh/beatmapsets/39804#osu/129891"), Some(129891));
    assert_eq!(extract_beatmap_id("https://osu.ppy.sh/beatmapsets/39804#mania/42"), Some(42));
    assert_eq!(extract_beatmap_id("https://osu.ppy.sh/beatmapsets/39804#/42"), Some(42));
    // Without a second segment the path says nothing.
    assert_eq!(extract_beatmap_id("https://osu.ppy.sh/beatmaps#osu/42"), Some(42));
}

#[test]
fn a_path_that_decides_is_not_overruled() {
    assert_eq!(extract_beatmap_id("https://osu.ppy.sh/beatmaps/abc#osu/42"), None);
    assert_eq!(extract_beatmap_id("https://osu.ppy.sh/b/#osu/42"), None);
    assert_eq!(extract_beatmap_id("https://osu.ppy.sh/b/4294967296#osu/42"), None);
}

#[test]
fn other_references_name_nothing() {
    for s in ["", "abc", "osu.ppy.sh/b/1", "https://osu.ppy.sh/", "https://osu.ppy.sh/beatmapsets/39804",
        "https://osu.ppy.sh/beatmapsets/39804#osu", "https://osu.ppy.sh/beatmapsets/39804#osu/1/2",
        "https://osu.ppy.sh/beatmapsets/39804#osu/x", "https://osu.ppy.sh/B/1", "https://osu.ppy.sh/x/b/1",
        "mailto:b/1", "-1", "12 34"]
    {
        assert_eq!(extract_beatmap_id(s), None, "{:?}", s);
    }
}

#[test]
fn parts_decide_as_the_link_does() {
    assert_eq!(id_from_parts(&parts(Some(&["beatmaps", "12"]), None)), Some(12));
    assert_eq!(id_from_parts(&parts(Some(&["b", "12", "x"]), Some("osu/1"))), Some(12));
    assert_eq!(id_from_parts(&parts(Some(&["b", "x"]), Some("osu/1"))), None);
    assert_eq!(id_from_parts(&parts(Some(&["b"]), Some("osu/1"))), Some(1));
    assert_eq!(id_from_parts(&parts(Some(&["beatmapsets", "3"]), Some("osu/1"))), Some(1));
    assert_eq!(id_from_parts(&parts(Some(&[]), Some("é/5"))), Some(5));
    assert_eq!(id_from_parts(&parts(None, Some("taiko/+9"))), Some(9));
    assert_eq!(id_from_parts(&parts(None, Some("taiko"))), None);
    assert_eq!(id_from_parts(&parts(None, Some("a/1/"))), None);
    assert_eq!(id_from_parts(&parts(None, Some("/"))), None);
    assert_eq!(id_from_parts(&parts(None, None)), None);
    assert_eq!(id_from_parts(&parts(Some(&["beatmaps", "12"]), Some("osu/1"))), Some(12));
}

#[test]
fn splitting_gives_one_piece_more_than_slashes() {
    let pieces = |s: &str| -> Vec<String> {
        split_at_slashes(s).into_iter().map(|p| p.into_iter().collect()).collect()
    };
    assert_eq!(pieces(""), vec![""]);
    assert_eq!(pieces("osu"), vec!["osu"]);
    assert_eq!(pieces("osu/42"), vec!["osu", "42"]);
    assert_eq!(pieces("/"), vec!["", ""]);
    assert_eq!(pieces("a//b/"), vec!["a", "", "b", ""]);
    for s in ["", "/", "a/b", "//", "é/♪/", "/x"] {
        let expected: Vec<String> = s.split('/').map(|p| p.to_string()).collect();
        assert_eq!(pieces(s), expected);
    }
}
