use eh_archiver::cover::{cover_path, select_cover};
use eh_archiver::mapper::{
    derive_title, external_identifier, gallery_to_dto, gid_token, parse_category,
    parse_category_str, parse_gallery_url, parse_tag, plan_author_updates, plan_tag_updates,
    scale_rating, Category, Gallery, GalleryInfo, Keyword,
};
use eh_archiver::tag_db::{EhTagDb, TagDbError, TagRecord};
use eh_archiver::text::{extension_of, to_ascii_lower, trim, u64_to_string};

fn rec(raw: &str, name: &str) -> TagRecord {
    TagRecord {
        raw: raw.to_string(),
        name: name.to_string(),
        intro: String::new(),
        links: String::new(),
    }
}

#[test]
fn title_strips_leading_group_and_artist_markers() {
    assert_eq!(
        derive_title("(Group) [Artist] Real Title (note)", ""),
        "Real Title (note)".to_string()
    );
}

#[test]
fn title_prefers_localized_and_falls_back_to_plain() {
    // The localized title wins when present.
    assert_eq!(derive_title("Plain", "[Circle] Localized"), "Localized".to_string());
    // When nothing significant remains, the plain title stands as it is.
    assert_eq!(derive_title("Plain", "(only marker)"), "Plain".to_string());
    assert_eq!(derive_title("  padded  ", ""), "padded".to_string());
}

#[test]
fn category_tables() {
    assert_eq!(parse_category(&Category::ArtistCG), Some("artistcg".to_string()));
    assert_eq!(parse_category(&Category::NonH), Some("non-h".to_string()));
    assert_eq!(parse_category(&Category::Unspecified), None);
    assert_eq!(parse_category_str("Artist CG"), Some("artistcg".to_string()));
    assert_eq!(parse_category_str("Image Set"), Some("imageset".to_string()));
    assert_eq!(parse_category_str("Western"), Some("western".to_string()));
    assert_eq!(parse_category_str("bogus"), None);
}

#[test]
fn keywords_classify_by_namespace() {
    let t = Keyword::Artist("someone".to_string());
    assert_eq!(parse_tag(&t), Some(("artist", "someone")));
    let t = Keyword::Language("chinese".to_string());
    assert_eq!(parse_tag(&t), Some(("language", "chinese")));
    assert_eq!(parse_tag(&Keyword::Normal("x".to_string())), None);
    assert_eq!(parse_tag(&Keyword::Temp("x".to_string())), None);
}

#[test]
fn rating_doubles_and_floors() {
    assert_eq!(scale_rating(466), 9);
    assert_eq!(scale_rating(500), 10);
    assert_eq!(scale_rating(249), 4);
    assert_eq!(scale_rating(0), 0);
}

#[test]
fn identifier_and_key_rendering() {
    assert_eq!(gid_token(123, "abcdef01"), "123_abcdef01".to_string());
    assert_eq!(external_identifier("123", "abcdef01", true), "123_abcdef01_1".to_string());
    assert_eq!(external_identifier("123", "abcdef01", false), "123_abcdef01_0".to_string());
    assert_eq!(u64_to_string(0), "0".to_string());
    assert_eq!(u64_to_string(9876543210), "9876543210".to_string());
}

#[test]
fn gallery_url_extraction() {
    assert_eq!(
        parse_gallery_url("https://e-hentai.org/g/123/abcdef01/"),
        Some(("123".to_string(), "abcdef01".to_string()))
    );
    assert_eq!(
        parse_gallery_url("x/g/99/beef"),
        Some(("99".to_string(), "beef".to_string()))
    );
    assert_eq!(parse_gallery_url("https://e-hentai.org/"), None);
    // Digits must be followed by a slash and at least one token character.
    assert_eq!(parse_gallery_url("/g/12ab/cd"), None);
}

#[test]
fn mapping_with_empty_cache_falls_back_to_raw_values() {
    let db = EhTagDb::new();
    let info = GalleryInfo {
        gid: 10,
        token: "tok".to_string(),
        title: "(G) [A] Story".to_string(),
        title_jpn: String::new(),
        rating_hundredths: 466,
        tags: vec![
            Keyword::Artist("someartist".to_string()),
            Keyword::Language("chinese".to_string()),
            Keyword::Normal("ignored".to_string()),
        ],
    };
    let gallery = Gallery::Metadata { info, category: "Manga".to_string() };
    let parts = gallery_to_dto(&db, false, Some("path.cbz".to_string()), &gallery).unwrap();

    assert_eq!(parts.book.title, "Story".to_string());
    assert_eq!(parts.book.flags, 1);
    assert_eq!(parts.authors.len(), 1);
    assert_eq!(parts.authors[0].full_name, "someartist".to_string());
    // No group keyword: the publisher defaults.
    assert_eq!(parts.publishers.len(), 1);
    assert_eq!(parts.publishers[0].name, "Unknown".to_string());
    assert_eq!(parts.language.as_ref().unwrap().lang_code, "chinese".to_string());
    // The language keyword and the category each yield one tag.
    assert_eq!(parts.tags.len(), 2);
    assert_eq!(parts.tags[0].name, "language:chinese".to_string());
    assert_eq!(parts.tags[1].name, "分类:manga".to_string());
    assert_eq!(parts.identifiers.len(), 1);
    assert_eq!(parts.identifiers[0].label, "ehentai".to_string());
    assert_eq!(parts.identifiers[0].value, "10_tok_0".to_string());
    assert_eq!(parts.rating.as_ref().unwrap().rating, 9);
    let files = parts.files.as_ref().unwrap();
    assert_eq!(files.len(), 1);
    assert_eq!(files[0].path, "path.cbz".to_string());
}

#[test]
fn mapping_translates_through_the_cache() {
    let mut db = EhTagDb::new();
    db.update_namespace("artist", &vec![rec("someartist", "Artist Name")]).unwrap();
    db.update_namespace("rows", &vec![rec("language", "語言")]).unwrap();
    db.update_namespace("language", &vec![rec("chinese", "中文")]).unwrap();
    let info = GalleryInfo {
        gid: 7,
        token: "t0".to_string(),
        title: "T".to_string(),
        title_jpn: String::new(),
        rating_hundredths: 0,
        tags: vec![
            Keyword::Artist("someartist".to_string()),
            Keyword::Language("chinese".to_string()),
        ],
    };
    let gallery = Gallery::Detail { info, category: Category::Unspecified };
    let parts = gallery_to_dto(&db, true, None, &gallery).unwrap();
    assert_eq!(parts.authors[0].full_name, "Artist Name".to_string());
    // The language tag joins the namespace display name and the
    // translated value; the language code keeps the raw value.
    assert_eq!(parts.tags[0].name, "語言:中文".to_string());
    assert_eq!(parts.language.as_ref().unwrap().lang_code, "chinese".to_string());
    // No category: no category tag.
    assert_eq!(parts.tags.len(), 1);
    assert_eq!(parts.identifiers[0].value, "7_t0_1".to_string());
    assert!(parts.files.is_none());
}

#[test]
fn mapping_rejects_a_namespace_outside_the_twelve() {
    let db = EhTagDb::new();
    let info = GalleryInfo {
        gid: 1,
        token: "t".to_string(),
        title: "T".to_string(),
        title_jpn: String::new(),
        rating_hundredths: 0,
        tags: vec![Keyword::Uploader("someone".to_string())],
    };
    let gallery = Gallery::Metadata { info, category: String::new() };
    let r = gallery_to_dto(&db, false, None, &gallery);
    assert!(matches!(r, Err(TagDbError::UnknownNamespace)));
}

#[test]
fn author_renames_follow_translations() {
    let mut db = EhTagDb::new();
    db.update_namespace("artist", &vec![rec("bob", "Bobby"), rec("eve", "eve")]).unwrap();
    let authors = vec![
        (1i64, "bob".to_string()),
        (2i64, "carol".to_string()),
        (3i64, "eve".to_string()),
    ];
    // Only a stored name with a differing translation is renamed.
    let plan = plan_author_updates(&db, &authors);
    assert_eq!(plan, vec![(1i64, "Bobby".to_string())]);
}

#[test]
fn tag_renames_join_namespace_display_and_translation() {
    let mut db = EhTagDb::new();
    db.update_namespace("rows", &vec![rec("language", "語言")]).unwrap();
    db.update_namespace("language", &vec![rec("chinese", "中文")]).unwrap();
    let tags = vec![
        (5i64, "language:chinese".to_string()),
        (6i64, "nocolon".to_string()),
        (7i64, "a:b:c".to_string()),
        (8i64, "parody:unknown".to_string()),
    ];
    let plan = plan_tag_updates(&db, &tags);
    assert_eq!(plan, vec![(5i64, "語言:中文".to_string())]);
}

#[test]
fn cover_is_first_matching_entry_in_container_order() {
    let entries = vec!["b.txt".to_string(), "a.png".to_string(), "c.jpg".to_string()];
    // Container order decides, not name order: the entry after the
    // non-image wins even though another image sorts first.
    assert_eq!(select_cover(&entries), Some((1, "png".to_string())));
}

#[test]
fn cover_matching_is_case_insensitive_and_optional() {
    let entries = vec!["dir/PAGE1.JPEG".to_string()];
    assert_eq!(select_cover(&entries), Some((0, "jpeg".to_string())));
    let none = vec!["readme.txt".to_string(), "data.bin".to_string()];
    assert_eq!(select_cover(&none), None);
    assert_eq!(cover_path("/out/1_t", "png"), "/out/1_t/cover.png".to_string());
}

#[test]
fn text_helpers() {
    assert_eq!(trim("  a b \t"), "a b".to_string());
    assert_eq!(to_ascii_lower("JPeG"), "jpeg".to_string());
    assert_eq!(extension_of("x/y.tar.gz"), Some("gz".to_string()));
    assert_eq!(extension_of(".hidden"), None);
    assert_eq!(extension_of("noext"), None);
}
