//! The catalog mapper: the pure transform from a fetched gallery record
//! to the catalog's record shape — derived title, category slug, authors,
//! publishers, language, tags, durable identifier, rating and files —
//! consulting the tag-translation cache for display names.
//!
//! The gallery types here model what the remote fetcher hands back,
//! holding as plain values exactly the fields this logic reads.

use vstd::prelude::*;
use vstd::string::*;

use crate::tag_db::{
    lemma_namespace_roundtrip, lookup_row, namespace_index, namespace_index_of, EhTagDb,
    TagDbError,
};
use crate::text::{
    decimal_chars, find_first_of_two, first_of_two, str_eq, trim, trim_chars, trim_start,
    trim_start_chars, u64_to_string,
};

verus! {

/// A gallery tag, classified by its namespace, as the fetcher reports it.
pub enum Keyword {
    Normal(String),
    Language(String),
    Parody(String),
    Character(String),
    Artist(String),
    Cosplayer(String),
    Group(String),
    Female(String),
    Male(String),
    Mixed(String),
    Other(String),
    Reclass(String),
    Temp(String),
    Uploader(String),
}

/// A gallery category, as the page-scraping fetcher reports it.
#[derive(PartialEq, Eq, Structural, Clone, Copy, Debug)]
pub enum Category {
    Unspecified,
    Misc,
    Doujinshi,
    Manga,
    ArtistCG,
    GameCG,
    ImageSet,
    Cosplay,
    NonH,
    Western,
    All,
    Private,
    Unknown,
}

/// The descriptive fields common to both gallery variants.
pub struct GalleryInfo {
    pub gid: u64,
    pub token: String,
    pub title: String,
    pub title_jpn: String,
    /// The numeric rating on the 0.0 to 5.0 scale, in hundredths.
    pub rating_hundredths: u32,
    pub tags: Vec<Keyword>,
}

/// A fetched gallery record. `Detail` comes from page scraping and
/// carries the category as an enumeration; `Metadata` comes from the bulk
/// interface and carries it as text.
pub enum Gallery {
    Detail { info: GalleryInfo, category: Category },
    Metadata { info: GalleryInfo, category: String },
}

impl Gallery {
    /// The descriptive fields of either variant.
    pub open spec fn info_spec(&self) -> GalleryInfo {
        match self {
            Gallery::Detail { info, .. } => *info,
            Gallery::Metadata { info, .. } => *info,
        }
    }

    /// The descriptive fields of either variant.
    pub fn info(&self) -> (r: &GalleryInfo)
        ensures
            *r == self.info_spec(),
    {
        match self {
            Gallery::Detail { info, .. } => info,
            Gallery::Metadata { info, .. } => info,
        }
    }
}

/// The category slug for an enumerated category, if it maps to one.
pub open spec fn category_slug(c: Category) -> Option<Seq<char>> {
    match c {
        Category::Misc => Some("misc"@),
        Category::Doujinshi => Some("doujinshi"@),
        Category::Manga => Some("manga"@),
        Category::ArtistCG => Some("artistcg"@),
        Category::GameCG => Some("gamecg"@),
        Category::ImageSet => Some("imageset"@),
        Category::Cosplay => Some("cosplay"@),
        Category::NonH => Some("non-h"@),
        Category::Western => Some("western"@),
        Category::Private => Some("private"@),
        _ => None,
    }
}

/// The category slug for a textual category, if it names one.
pub open spec fn category_slug_of(s: Seq<char>) -> Option<Seq<char>> {
    if s == "Misc"@ { Some("misc"@) } else if s == "Doujinshi"@ { Some("doujinshi"@) }
    else if s == "Manga"@ { Some("manga"@) } else if s == "Artist CG"@ { Some("artistcg"@) }
    else if s == "Game CG"@ { Some("gamecg"@) } else if s == "Image Set"@ { Some("imageset"@) }
    else if s == "Cosplay"@ { Some("cosplay"@) } else if s == "Non-H"@ { Some("non-h"@) }
    else if s == "Western"@ { Some("western"@) } else if s == "private"@ { Some("private"@) }
    else { None }
}

/// Maps an enumerated category to its slug.
pub fn parse_category(category: &Category) -> (r: Option<String>)
    ensures
        match r {
            Some(s) => category_slug(*category) == Some(s@),
            None => category_slug(*category) is None,
        },
{
    match category {
        Category::Misc => Some("misc".to_owned()),
        Category::Doujinshi => Some("doujinshi".to_owned()),
        Category::Manga => Some("manga".to_owned()),
        Category::ArtistCG => Some("artistcg".to_owned()),
        Category::GameCG => Some("gamecg".to_owned()),
        Category::ImageSet => Some("imageset".to_owned()),
        Category::Cosplay => Some("cosplay".to_owned()),
        Category::NonH => Some("non-h".to_owned()),
        Category::Western => Some("western".to_owned()),
        Category::Private => Some("private".to_owned()),
        _ => None,
    }
}

/// Maps a textual category to its slug.
pub fn parse_category_str(category: &str) -> (r: Option<String>)
    ensures
        match r {
            Some(s) => category_slug_of(category@) == Some(s@),
            None => category_slug_of(category@) is None,
        },
{
    if str_eq(category, "Misc") { Some("misc".to_owned()) }
    else if str_eq(category, "Doujinshi") { Some("doujinshi".to_owned()) }
    else if str_eq(category, "Manga") { Some("manga".to_owned()) }
    else if str_eq(category, "Artist CG") { Some("artistcg".to_owned()) }
    else if str_eq(category, "Game CG") { Some("gamecg".to_owned()) }
    else if str_eq(category, "Image Set") { Some("imageset".to_owned()) }
    else if str_eq(category, "Cosplay") { Some("cosplay".to_owned()) }
    else if str_eq(category, "Non-H") { Some("non-h".to_owned()) }
    else if str_eq(category, "Western") { Some("western".to_owned()) }
    else if str_eq(category, "private") { Some("private".to_owned()) }
    else { None }
}

/// The namespace name and raw value of a keyword, or nothing for the
/// kinds the mapper ignores.
pub open spec fn kw_parsed(kw: Keyword) -> Option<(Seq<char>, Seq<char>)> {
    match kw {
        Keyword::Normal(_) => None,
        Keyword::Language(k) => Some(("language"@, k@)),
        Keyword::Parody(k) => Some(("parody"@, k@)),
        Keyword::Character(k) => Some(("character"@, k@)),
        Keyword::Artist(k) => Some(("artist"@, k@)),
        Keyword::Cosplayer(k) => Some(("cosplayer"@, k@)),
        Keyword::Group(k) => Some(("group"@, k@)),
        Keyword::Female(k) => Some(("female"@, k@)),
        Keyword::Male(k) => Some(("male"@, k@)),
        Keyword::Mixed(k) => Some(("mixed"@, k@)),
        Keyword::Other(k) => Some(("other"@, k@)),
        Keyword::Reclass(k) => Some(("reclass"@, k@)),
        Keyword::Temp(_) => None,
        Keyword::Uploader(k) => Some(("uploader"@, k@)),
    }
}

/// Classifies a keyword into its namespace name and raw value.
pub fn parse_tag<'a>(tag: &'a Keyword) -> (r: Option<(&'static str, &'a str)>)
    ensures
        match r {
            Some((ns, raw)) => kw_parsed(*tag) == Some((ns@, raw@)),
            None => kw_parsed(*tag) is None,
        },
{
    match tag {
        Keyword::Normal(_) => None,
        Keyword::Language(k) => Some(("language", k.as_str())),
        Keyword::Parody(k) => Some(("parody", k.as_str())),
        Keyword::Character(k) => Some(("character", k.as_str())),
        Keyword::Artist(k) => Some(("artist", k.as_str())),
        Keyword::Cosplayer(k) => Some(("cosplayer", k.as_str())),
        Keyword::Group(k) => Some(("group", k.as_str())),
        Keyword::Female(k) => Some(("female", k.as_str())),
        Keyword::Male(k) => Some(("male", k.as_str())),
        Keyword::Mixed(k) => Some(("mixed", k.as_str())),
        Keyword::Other(k) => Some(("other", k.as_str())),
        Keyword::Reclass(k) => Some(("reclass", k.as_str())),
        Keyword::Temp(_) => None,
        Keyword::Uploader(k) => Some(("uploader", k.as_str())),
    }
}

/// The rating rescaled for the catalog: doubled and floored to an
/// integer, so tenth-of-a-star resolution becomes half-star resolution.
pub fn scale_rating(rating_hundredths: u32) -> (r: i32)
    requires
        rating_hundredths <= 500,
    ensures
        r == 2 * rating_hundredths as int / 100,
{
    ((2 * rating_hundredths) / 100) as i32
}

/// The canonical job and directory key of a gallery: gid and token
/// joined by an underscore.
pub open spec fn gid_token_chars(gid: int, token: Seq<char>) -> Seq<char> {
    decimal_chars(gid) + "_"@ + token
}

/// Renders the canonical `gid_token` key of a gallery.
pub fn gid_token(gid: u64, token: &str) -> (r: String)
    ensures
        r@ == gid_token_chars(gid as int, token@),
{
    let mut s = u64_to_string(gid);
    s.append("_");
    s.append(token);
    s
}

/// The durable external identifier of a gallery: gid, token and the
/// site-variant flag (1 for the variant site), underscore-joined.
pub open spec fn identifier_chars(gid: Seq<char>, token: Seq<char>, is_exhentai: bool) -> Seq<
    char,
> {
    gid + "_"@ + token + "_"@ + (if is_exhentai { "1"@ } else { "0"@ })
}

/// Renders the durable external identifier from textual gid and token.
pub fn external_identifier(gid: &str, token: &str, is_exhentai: bool) -> (r: String)
    ensures
        r@ == identifier_chars(gid@, token@, is_exhentai),
{
    let mut s = gid.to_owned();
    s.append("_");
    s.append(token);
    s.append("_");
    if is_exhentai {
        s.append("1");
    } else {
        s.append("0");
    }
    s
}

/// One leading marker stripped: when `s` opens with `open` and the first
/// following bracket character closes a non-empty marker, the characters
/// after it; otherwise `s` unchanged.
pub open spec fn strip_leading_marker(s: Seq<char>, open: char, close: char) -> Seq<char> {
    if s.len() > 0 && s[0] == open {
        match first_of_two(s, open, close, 1) {
            Some(j) => if s[j] == close && j >= 2 {
                s.skip(j + 1)
            } else {
                s
            },
            None => s,
        }
    } else {
        s
    }
}

/// The title the catalog records: from the localized title when present,
/// else the plain title, one leading parenthesized marker and one leading
/// bracketed marker stripped, the remainder trimmed; when nothing
/// significant remains, the plain title as it stands.
pub open spec fn derived_title(title: Seq<char>, title_jpn: Seq<char>) -> Seq<char> {
    let base = if title_jpn.len() > 0 {
        title_jpn
    } else {
        title
    };
    let s1 = trim_start_chars(base);
    let s2 = trim_start_chars(strip_leading_marker(s1, '(', ')'));
    let s3 = trim_chars(strip_leading_marker(s2, '[', ']'));
    if s3.len() > 0 {
        s3
    } else {
        title
    }
}

/// Strips one leading marker pair from `s`.
fn strip_marker(s: &str, open: char, close: char) -> (r: String)
    ensures
        r@ == strip_leading_marker(s@, open, close),
{
    let n = s.unicode_len();
    if n > 0 && s.get_char(0) == open {
        match find_first_of_two(s, open, close, 1) {
            Some(j) => {
                if s.get_char(j) == close && j >= 2 {
                    s.substring_char(j + 1, n).to_owned()
                } else {
                    s.to_owned()
                }
            },
            None => s.to_owned(),
        }
    } else {
        s.to_owned()
    }
}

/// Derives the catalog title from the fetched titles.
pub fn derive_title(title: &str, title_jpn: &str) -> (r: String)
    ensures
        r@ == derived_title(title@, title_jpn@),
{
    let base = if !title_jpn.is_empty() {
        title_jpn
    } else {
        title
    };
    let s1 = trim_start(base);
    let s2 = trim_start(strip_marker(s1.as_str(), '(', ')').as_str());
    let s3 = trim(strip_marker(s2.as_str(), '[', ']').as_str());
    if !s3.as_str().is_empty() {
        s3
    } else {
        title.to_owned()
    }
}

/// The book fields of a new catalog entry.
pub struct NewBookDto {
    pub title: String,
    pub flags: i32,
}

/// One author of a new catalog entry.
pub struct NewAuthorDto {
    pub full_name: String,
    pub sortable_name: String,
}

/// One publisher of a new catalog entry.
pub struct NewPublisherDto {
    pub name: String,
}

/// The language of a new catalog entry.
pub struct NewLanguageDto {
    pub lang_code: String,
}

/// One tag of a new catalog entry.
pub struct NewTagDto {
    pub name: String,
}

/// One durable identifier of a catalog entry.
pub struct UpsertBookIdentifier {
    pub book_id: i32,
    pub label: String,
    pub value: String,
}

/// The rating of a new catalog entry.
pub struct NewRatingDto {
    pub rating: i32,
}

/// One file attached to a new catalog entry.
pub struct NewLibraryFileDto {
    pub path: String,
}

/// Everything the catalog needs for one gallery: the full record shape.
pub struct LibraryEntryParts {
    pub book: NewBookDto,
    pub authors: Vec<NewAuthorDto>,
    pub publishers: Vec<NewPublisherDto>,
    pub language: Option<NewLanguageDto>,
    pub tags: Vec<NewTagDto>,
    pub identifiers: Vec<UpsertBookIdentifier>,
    pub rating: Option<NewRatingDto>,
    pub files: Option<Vec<NewLibraryFileDto>>,
}

/// The display name the cache holds for `raw` under the namespace named
/// `ns`, falling back to `raw` itself.
pub open spec fn translated_under(db: &EhTagDb, ns: Seq<char>, raw: Seq<char>) -> Seq<char> {
    match namespace_index(ns) {
        Some(k) => match lookup_row(db.table_at(k), raw) {
            Some(v) => v.1,
            None => raw,
        },
        None => raw,
    }
}

/// The translated author names the gallery's artist keywords yield, in
/// order.
pub open spec fn author_entries(db: &EhTagDb, tags: Seq<Keyword>) -> Seq<Seq<char>> {
    tags.filter_map(
        |kw: Keyword|
            match kw {
                Keyword::Artist(k) => Some(translated_under(db, "artist"@, k@)),
                _ => None,
            },
    )
}

/// The translated publisher names the gallery's group keywords yield, in
/// order.
pub open spec fn publisher_entries(db: &EhTagDb, tags: Seq<Keyword>) -> Seq<Seq<char>> {
    tags.filter_map(
        |kw: Keyword|
            match kw {
                Keyword::Group(k) => Some(translated_under(db, "group"@, k@)),
                _ => None,
            },
    )
}

/// One catalog tag: the namespace display name and the translated value,
/// colon-joined.
pub open spec fn tag_entry(db: &EhTagDb, ns: Seq<char>, raw: Seq<char>) -> Seq<char> {
    translated_under(db, "rows"@, ns) + ":"@ + translated_under(db, ns, raw)
}

/// The catalog tags the gallery's keywords yield, in order: every
/// classified keyword except artists and groups, which become authors and
/// publishers instead.
pub open spec fn tag_entries(db: &EhTagDb, tags: Seq<Keyword>) -> Seq<Seq<char>> {
    tags.filter_map(
        |kw: Keyword|
            match kw_parsed(kw) {
                Some((ns, raw)) => if ns == "artist"@ || ns == "group"@ {
                    None
                } else {
                    Some(tag_entry(db, ns, raw))
                },
                None => None,
            },
    )
}

/// The raw value of the last language keyword, if any.
pub open spec fn lang_opt(tags: Seq<Keyword>) -> Option<Seq<char>>
    decreases tags.len(),
{
    if tags.len() == 0 {
        None
    } else {
        match tags.last() {
            Keyword::Language(k) => Some(k@),
            _ => lang_opt(tags.drop_last()),
        }
    }
}

/// The language code the catalog records: the last language keyword's raw
/// value, defaulting to Japanese.
pub open spec fn language_code(tags: Seq<Keyword>) -> Seq<char> {
    match lang_opt(tags) {
        Some(v) => v,
        None => "jpn"@,
    }
}

/// The category slug of either gallery variant.
pub open spec fn gallery_slug(g: &Gallery) -> Option<Seq<char>> {
    match g {
        Gallery::Detail { category, .. } => category_slug(*category),
        Gallery::Metadata { category, .. } => category_slug_of(category@),
    }
}

/// The category tag the catalog records for slug `slug`.
pub open spec fn category_tag(db: &EhTagDb, slug: Seq<char>) -> Seq<char> {
    "分类:"@ + translated_under(db, "reclass"@, slug)
}

/// Whether some keyword of `tags` carries a namespace outside the cache's
/// fixed twelve; mapping such a gallery fails.
pub open spec fn has_unknown_namespace(tags: Seq<Keyword>) -> bool {
    exists|i: int|
        0 <= i < tags.len() && match kw_parsed(#[trigger] tags[i]) {
            Some(p) => namespace_index(p.0) is None,
            None => false,
        }
}

/// Maps a fetched gallery to the catalog's record shape, consulting the
/// translation cache for author, publisher, tag and category display
/// names, with the fixed defaults for missing authors, publishers and
/// language.
#[verifier::rlimit(80)]
pub fn gallery_to_dto(
    db: &EhTagDb,
    is_exhentai: bool,
    cbz_path: Option<String>,
    gallery: &Gallery,
) -> (r: Result<LibraryEntryParts, TagDbError>)
    requires
        db.wf(),
        gallery.info_spec().rating_hundredths <= 500,
    ensures
        r is Err <==> has_unknown_namespace(gallery.info_spec().tags@),
        r is Err ==> r->Err_0 == TagDbError::UnknownNamespace,
        r matches Ok(parts) ==> {
            let info = gallery.info_spec();
            &&& parts.book.title@ == derived_title(info.title@, info.title_jpn@)
            &&& parts.book.flags == 1
            &&& ({
                let a = author_entries(db, info.tags@);
                if a.len() == 0 {
                    parts.authors@.len() == 1 && parts.authors@[0].full_name@ == "Unknown"@
                        && parts.authors@[0].sortable_name@.len() == 0
                } else {
                    parts.authors@.len() == a.len() && forall|i: int|
                        0 <= i < a.len() ==> (#[trigger] parts.authors@[i]).full_name@ == a[i]
                            && parts.authors@[i].sortable_name@.len() == 0
                }
            })
            &&& ({
                let p = publisher_entries(db, info.tags@);
                if p.len() == 0 {
                    parts.publishers@.len() == 1 && parts.publishers@[0].name@ == "Unknown"@
                } else {
                    parts.publishers@.len() == p.len() && forall|i: int|
                        0 <= i < p.len() ==> (#[trigger] parts.publishers@[i]).name@ == p[i]
                }
            })
            &&& parts.language matches Some(l) && l.lang_code@ == language_code(info.tags@)
            &&& ({
                let base = tag_entries(db, info.tags@);
                match gallery_slug(gallery) {
                    Some(slug) => parts.tags@.len() == base.len() + 1 && (forall|i: int|
                        0 <= i < base.len() ==> (#[trigger] parts.tags@[i]).name@ == base[i])
                        && parts.tags@[base.len() as int].name@ == category_tag(db, slug),
                    None => parts.tags@.len() == base.len() && forall|i: int|
                        0 <= i < base.len() ==> (#[trigger] parts.tags@[i]).name@ == base[i],
                }
            })
            &&& parts.identifiers@.len() == 1 && parts.identifiers@[0].label@ == "ehentai"@
                && parts.identifiers@[0].value@ == identifier_chars(
                decimal_chars(info.gid as int),
                info.token@,
                is_exhentai,
            ) && parts.identifiers@[0].book_id == 0
            &&& parts.rating matches Some(rd) && rd.rating == 2 * info.rating_hundredths as int
                / 100
            &&& (match cbz_path {
                Some(p) => parts.files matches Some(f) && f@.len() == 1 && f@[0].path@ == p@,
                None => parts.files is None,
            })
        },
{
    let info = gallery.info();
    let title = derive_title(info.title.as_str(), info.title_jpn.as_str());
    let book = NewBookDto { title, flags: 1 };

    let category_slug_found = match gallery {
        Gallery::Detail { category, .. } => parse_category(category),
        Gallery::Metadata { category, .. } => parse_category_str(category.as_str()),
    };
    let category_name: Option<String> = match category_slug_found {
        Some(c) => {
            proof {
                lemma_namespace_roundtrip();
            }
            match db.get_tag_name("reclass", c.as_str()) {
                Ok(Some(n)) => Some(n),
                Ok(None) => Some(c),
                Err(e) => {
                    proof {
                        assert(false);
                    }
                    return Err(e);
                },
            }
        },
        None => None,
    };

    let gid_text = u64_to_string(info.gid);
    let identifier = external_identifier(gid_text.as_str(), info.token.as_str(), is_exhentai);
    let mut identifiers: Vec<UpsertBookIdentifier> = Vec::new();
    identifiers.push(
        UpsertBookIdentifier { book_id: 0, label: "ehentai".to_owned(), value: identifier },
    );

    let rating = Some(NewRatingDto { rating: scale_rating(info.rating_hundredths) });
    let files: Option<Vec<NewLibraryFileDto>> = match cbz_path {
        Some(p) => {
            let mut v: Vec<NewLibraryFileDto> = Vec::new();
            v.push(NewLibraryFileDto { path: p });
            Some(v)
        },
        None => None,
    };

    let ghost author_f = |kw: Keyword|
        match kw {
            Keyword::Artist(k) => Some(translated_under(db, "artist"@, k@)),
            _ => None,
        };
    let ghost publisher_f = |kw: Keyword|
        match kw {
            Keyword::Group(k) => Some(translated_under(db, "group"@, k@)),
            _ => None,
        };
    let ghost tag_f = |kw: Keyword|
        match kw_parsed(kw) {
            Some((ns, raw)) => if ns == "artist"@ || ns == "group"@ {
                None
            } else {
                Some(tag_entry(db, ns, raw))
            },
            None => None,
        };

    let mut authors: Vec<NewAuthorDto> = Vec::new();
    let mut publishers: Vec<NewPublisherDto> = Vec::new();
    let mut language: Option<NewLanguageDto> = None;
    let mut tags_dto: Vec<NewTagDto> = Vec::new();

    let n = info.tags.len();
    proof {
        assert(info.tags@.take(0) =~= Seq::<Keyword>::empty());
        reveal_with_fuel(Seq::filter_map, 1);
        assert(author_entries(db, info.tags@.take(0)) =~= Seq::<Seq<char>>::empty());
    }
    for i in 0..n
        invariant
            n == info.tags@.len(),
            db.wf(),
            *info == gallery.info_spec(),
            author_f == (|kw: Keyword|
            match kw {
                Keyword::Artist(k) => Some(translated_under(db, "artist"@, k@)),
                _ => None,
            }),
            publisher_f == (|kw: Keyword|
            match kw {
                Keyword::Group(k) => Some(translated_under(db, "group"@, k@)),
                _ => None,
            }),
            tag_f == (|kw: Keyword|
            match kw_parsed(kw) {
                Some((ns, raw)) => if ns == "artist"@ || ns == "group"@ {
                    None
                } else {
                    Some(tag_entry(db, ns, raw))
                },
                None => None,
            }),
            ({
                let a = info.tags@.take(i as int).filter_map(author_f);
                authors@.len() == a.len() && forall|j: int|
                    0 <= j < a.len() ==> (#[trigger] authors@[j]).full_name@ == a[j]
                        && authors@[j].sortable_name@.len() == 0
            }),
            ({
                let p = info.tags@.take(i as int).filter_map(publisher_f);
                publishers@.len() == p.len() && forall|j: int|
                    0 <= j < p.len() ==> (#[trigger] publishers@[j]).name@ == p[j]
            }),
            ({
                let b = info.tags@.take(i as int).filter_map(tag_f);
                tags_dto@.len() == b.len() && forall|j: int|
                    0 <= j < b.len() ==> (#[trigger] tags_dto@[j]).name@ == b[j]
            }),
            (match language {
                Some(l) => lang_opt(info.tags@.take(i as int)) == Some(l.lang_code@),
                None => lang_opt(info.tags@.take(i as int)) is None,
            }),
            forall|j: int|
                0 <= j < i ==> match kw_parsed(#[trigger] info.tags@[j]) {
                    Some(p) => namespace_index(p.0) is Some,
                    None => true,
                },
    {
        let ghost prefix = info.tags@.take(i as int);
        let kw = &info.tags[i];
        proof {
            assert(info.tags@.take(i + 1).drop_last() =~= prefix);
            assert(info.tags@.take(i + 1).last() == info.tags@[i as int]);
            Seq::lemma_filter_map_take_succ(info.tags@, author_f, i as int);
            Seq::lemma_filter_map_take_succ(info.tags@, publisher_f, i as int);
            Seq::lemma_filter_map_take_succ(info.tags@, tag_f, i as int);
        }
        match parse_tag(kw) {
            None => {},
            Some((ns, raw)) => {
                proof {
                    lemma_namespace_roundtrip();
                }
                let tag_namespace = match db.get_tag_name("rows", ns) {
                    Ok(Some(name)) => name,
                    Ok(None) => ns.to_owned(),
                    Err(e) => {
                        proof {
                            assert(false);
                        }
                        return Err(e);
                    },
                };
                let tag_name = match db.get_tag_name(ns, raw) {
                    Ok(Some(name)) => name,
                    Ok(None) => raw.to_owned(),
                    Err(e) => {
                        return Err(e);
                    },
                };
                proof {
                    assert(tag_name@ == translated_under(db, ns@, raw@));
                    assert(tag_namespace@ == translated_under(db, "rows"@, ns@));
                    assert(kw_parsed(info.tags@[i as int]) == Some((ns@, raw@)));
                    assert(ns@ != "artist"@ ==> tag_f(info.tags@[i as int]) == Some(
                        tag_entry(db, ns@, raw@),
                    ) || ns@ == "group"@);
                    match kw {
                        Keyword::Artist(_) => {
                            assert(ns@ == "artist"@);
                        },
                        Keyword::Group(_) => {
                            assert(ns@ == "group"@);
                        },
                        _ => {
                            assert(ns@ != "artist"@ && ns@ != "group"@) by {
                                reveal_strlit("uploader");
                                reveal_strlit("artist");
                                reveal_strlit("group");
                                assert("uploader"@.len() == 8);
                                assert("artist"@.len() == 6);
                                assert("group"@.len() == 5);
                            }
                            assert(tag_f(info.tags@[i as int]) == Some(
                                tag_entry(db, ns@, raw@),
                            ));
                        },
                    }
                }
                match kw {
                    Keyword::Artist(_) => {
                        authors.push(
                            NewAuthorDto { full_name: tag_name, sortable_name: String::new() },
                        );
                    },
                    Keyword::Group(_) => {
                        publishers.push(NewPublisherDto { name: tag_name });
                    },
                    Keyword::Language(_) => {
                        language = Some(NewLanguageDto { lang_code: raw.to_owned() });
                        let mut joined = tag_namespace;
                        joined.append(":");
                        joined.append(tag_name.as_str());
                        tags_dto.push(NewTagDto { name: joined });
                    },
                    _ => {
                        let mut joined = tag_namespace;
                        joined.append(":");
                        joined.append(tag_name.as_str());
                        tags_dto.push(NewTagDto { name: joined });
                    },
                }
            },
        }
    }
    proof {
        assert(info.tags@.take(n as int) =~= info.tags@);
    }

    let authors = if authors.is_empty() {
        let mut v: Vec<NewAuthorDto> = Vec::new();
        v.push(NewAuthorDto { full_name: "Unknown".to_owned(), sortable_name: String::new() });
        v
    } else {
        authors
    };
    let publishers = if publishers.is_empty() {
        let mut v: Vec<NewPublisherDto> = Vec::new();
        v.push(NewPublisherDto { name: "Unknown".to_owned() });
        v
    } else {
        publishers
    };
    let language = match language {
        Some(l) => Some(l),
        None => Some(NewLanguageDto { lang_code: "jpn".to_owned() }),
    };

    let mut tags_dto = tags_dto;
    match category_name {
        Some(cn) => {
            let mut t = "分类:".to_owned();
            t.append(cn.as_str());
            tags_dto.push(NewTagDto { name: t });
        },
        None => {},
    }

    Ok(
        LibraryEntryParts {
            book,
            authors,
            publishers,
            language,
            tags: tags_dto,
            identifiers,
            rating,
            files,
        },
    )
}

/// A decimal digit.
pub open spec fn is_digit_char(c: char) -> bool {
    '0' <= c && c <= '9'
}

/// A lower-case hexadecimal digit, the alphabet of gallery tokens.
pub open spec fn is_hex_char(c: char) -> bool {
    is_digit_char(c) || ('a' <= c && c <= 'f')
}

/// The first index at or after `i` holding a non-digit (or the end).
pub open spec fn digit_run_end(s: Seq<char>, i: int) -> int
    decreases s.len() - i,
{
    if i < 0 || i >= s.len() {
        i
    } else if is_digit_char(s[i]) {
        digit_run_end(s, i + 1)
    } else {
        i
    }
}

/// The first index at or after `i` holding a non-hex character (or the
/// end).
pub open spec fn hex_run_end(s: Seq<char>, i: int) -> int
    decreases s.len() - i,
{
    if i < 0 || i >= s.len() {
        i
    } else if is_hex_char(s[i]) {
        hex_run_end(s, i + 1)
    } else {
        i
    }
}

/// Whether a gallery locator starts at `i`: the marker `/g/`, one or more
/// digits, a slash, and at least one token character.
pub open spec fn url_match_at(s: Seq<char>, i: int) -> bool {
    &&& 0 <= i
    &&& i + 4 <= s.len()
    &&& s[i] == '/'
    &&& s[i + 1] == 'g'
    &&& s[i + 2] == '/'
    &&& is_digit_char(s[i + 3])
    &&& ({
        let d = digit_run_end(s, i + 3);
        d < s.len() && s[d] == '/' && d + 1 < s.len() && is_hex_char(s[d + 1])
    })
}

/// The gallery id and token of the leftmost gallery locator at or after
/// `i`: the full digit run and the full token run after it.
pub open spec fn gallery_url_parts(s: Seq<char>, i: int) -> Option<(Seq<char>, Seq<char>)>
    decreases s.len() - i,
{
    if i < 0 || i + 4 > s.len() {
        None
    } else if url_match_at(s, i) {
        let d = digit_run_end(s, i + 3);
        let h = hex_run_end(s, d + 1);
        Some((s.subrange(i + 3, d), s.subrange(d + 1, h)))
    } else {
        gallery_url_parts(s, i + 1)
    }
}

fn is_digit_exec(c: char) -> (r: bool)
    ensures
        r == is_digit_char(c),
{
    '0' <= c && c <= '9'
}

fn is_hex_exec(c: char) -> (r: bool)
    ensures
        r == is_hex_char(c),
{
    ('0' <= c && c <= '9') || ('a' <= c && c <= 'f')
}

fn digit_run_end_exec(s: &str, from: usize) -> (r: usize)
    requires
        from <= s@.len(),
    ensures
        r == digit_run_end(s@, from as int),
        from <= r <= s@.len(),
{
    let n = s.unicode_len();
    let mut i: usize = from;
    while i < n && is_digit_exec(s.get_char(i))
        invariant
            n == s@.len(),
            from <= i <= n,
            digit_run_end(s@, from as int) == digit_run_end(s@, i as int),
        decreases n - i,
    {
        i = i + 1;
    }
    i
}

fn hex_run_end_exec(s: &str, from: usize) -> (r: usize)
    requires
        from <= s@.len(),
    ensures
        r == hex_run_end(s@, from as int),
        from <= r <= s@.len(),
{
    let n = s.unicode_len();
    let mut i: usize = from;
    while i < n && is_hex_exec(s.get_char(i))
        invariant
            n == s@.len(),
            from <= i <= n,
            hex_run_end(s@, from as int) == hex_run_end(s@, i as int),
        decreases n - i,
    {
        i = i + 1;
    }
    i
}

/// Extracts the gallery id and token from a gallery page locator: the
/// leftmost `/g/<digits>/<token>` in the text, id and token as they
/// stand. Nothing when the text holds no such locator.
pub fn parse_gallery_url(url: &str) -> (r: Option<(String, String)>)
    ensures
        match r {
            Some((gid, token)) => gallery_url_parts(url@, 0) == Some((gid@, token@)),
            None => gallery_url_parts(url@, 0) is None,
        },
{
    let n = url.unicode_len();
    if n < 4 {
        return None;
    }
    let mut i: usize = 0;
    while i <= n - 4
        invariant
            n == url@.len(),
            4 <= n,
            i <= n,
            gallery_url_parts(url@, 0) == gallery_url_parts(url@, i as int),
        decreases n - i,
    {
        let mut is_match = false;
        let mut dpos: usize = 0;
        if url.get_char(i) == '/' && url.get_char(i + 1) == 'g' && url.get_char(i + 2) == '/'
            && is_digit_exec(url.get_char(i + 3)) {
            let d = digit_run_end_exec(url, i + 3);
            if d < n && url.get_char(d) == '/' && d + 1 < n && is_hex_exec(url.get_char(d + 1)) {
                is_match = true;
                dpos = d;
            }
        }
        if is_match {
            proof {
                assert(url_match_at(url@, i as int));
            }
            let h = hex_run_end_exec(url, dpos + 1);
            let gid = url.substring_char(i + 3, dpos).to_owned();
            let token = url.substring_char(dpos + 1, h).to_owned();
            return Some((gid, token));
        }
        proof {
            assert(!url_match_at(url@, i as int));
        }
        i = i + 1;
    }
    proof {
        assert(gallery_url_parts(url@, i as int) is None);
    }
    None
}

/// The rename the translation cache implies for one stored name under
/// namespace table `k`: the translated name, when one exists and differs.
pub open spec fn rename_of(db: &EhTagDb, k: int, id: i64, name: Seq<char>) -> Option<
    (i64, Seq<char>),
> {
    match lookup_row(db.table_at(k), name) {
        Some(v) => if v.1 != name {
            Some((id, v.1))
        } else {
            None
        },
        None => None,
    }
}

/// The renames a sync of stored rows `rows` against namespace table `k`
/// implies, in order.
pub open spec fn planned_renames(db: &EhTagDb, k: int, rows: Seq<(i64, String)>) -> Seq<
    (i64, Seq<char>),
> {
    rows.filter_map(|r: (i64, String)| rename_of(db, k, r.0, r.1@))
}

/// Plans the author renames a metadata-update pass applies: every stored
/// author whose name has a differing translation under the artist
/// namespace, paired with that translation.
pub fn plan_author_updates(db: &EhTagDb, authors: &Vec<(i64, String)>) -> (r: Vec<(i64, String)>)
    requires
        db.wf(),
    ensures
        ({
            let plan = planned_renames(db, 0, authors@);
            r@.len() == plan.len() && forall|i: int|
                0 <= i < plan.len() ==> (#[trigger] r@[i]).0 == plan[i].0 && r@[i].1@
                    == plan[i].1
        }),
{
    proof {
        lemma_namespace_roundtrip();
    }
    plan_renames_under(db, "artist", authors)
}

/// Plans the publisher renames: every stored publisher whose name has a
/// differing translation under the group namespace.
pub fn plan_publisher_updates(db: &EhTagDb, publishers: &Vec<(i64, String)>) -> (r: Vec<
    (i64, String),
>)
    requires
        db.wf(),
    ensures
        ({
            let plan = planned_renames(db, 4, publishers@);
            r@.len() == plan.len() && forall|i: int|
                0 <= i < plan.len() ==> (#[trigger] r@[i]).0 == plan[i].0 && r@[i].1@
                    == plan[i].1
        }),
{
    proof {
        lemma_namespace_roundtrip();
    }
    plan_renames_under(db, "group", publishers)
}

fn plan_renames_under(db: &EhTagDb, namespace: &str, rows: &Vec<(i64, String)>) -> (r: Vec<
    (i64, String),
>)
    requires
        db.wf(),
        namespace_index(namespace@) is Some,
    ensures
        ({
            let plan = planned_renames(db, namespace_index(namespace@)->Some_0, rows@);
            r@.len() == plan.len() && forall|i: int|
                0 <= i < plan.len() ==> (#[trigger] r@[i]).0 == plan[i].0 && r@[i].1@
                    == plan[i].1
        }),
{
    let ghost k = namespace_index(namespace@)->Some_0;
    let ghost f = |row: (i64, String)| rename_of(db, k, row.0, row.1@);
    let mut out: Vec<(i64, String)> = Vec::new();
    let n = rows.len();
    proof {
        assert(rows@.take(0) =~= Seq::<(i64, String)>::empty());
        reveal_with_fuel(Seq::filter_map, 1);
        assert(rows@.take(0).filter_map(f) =~= Seq::<(i64, Seq<char>)>::empty());
    }
    for i in 0..n
        invariant
            n == rows@.len(),
            db.wf(),
            namespace_index(namespace@) == Some(k),
            f == (|row: (i64, String)| rename_of(db, k, row.0, row.1@)),
            ({
                let plan = rows@.take(i as int).filter_map(f);
                out@.len() == plan.len() && forall|j: int|
                    0 <= j < plan.len() ==> (#[trigger] out@[j]).0 == plan[j].0 && out@[j].1@
                        == plan[j].1
            }),
    {
        proof {
            assert(rows@.take(i + 1).drop_last() =~= rows@.take(i as int));
            assert(rows@.take(i + 1).last() == rows@[i as int]);
            Seq::lemma_filter_map_take_succ(rows@, f, i as int);
        }
        let (id, name) = (&rows[i].0, &rows[i].1);
        match db.get_tag_name(namespace, name.as_str()) {
            Ok(Some(translation)) => {
                if !str_eq(translation.as_str(), name.as_str()) {
                    out.push((*id, translation));
                }
            },
            Ok(None) => {},
            Err(_) => {
                proof {
                    assert(false);
                }
            },
        }
    }
    proof {
        assert(rows@.take(n as int) =~= rows@);
    }
    out
}

/// A stored tag name split at its only colon into namespace and value;
/// nothing unless the colon occurs exactly once.
pub open spec fn split_tag_name(s: Seq<char>) -> Option<(Seq<char>, Seq<char>)> {
    match first_of_two(s, ':', ':', 0) {
        Some(j) => if first_of_two(s, ':', ':', j + 1) is None {
            Some((s.take(j), s.skip(j + 1)))
        } else {
            None
        },
        None => None,
    }
}

/// The rename the cache implies for one stored `namespace:value` tag:
/// both the namespace's display name (which must be translated under the
/// namespace-name table) and a differing translation of the value must
/// exist.
pub open spec fn tag_rename_of(db: &EhTagDb, id: i64, name: Seq<char>) -> Option<
    (i64, Seq<char>),
> {
    match split_tag_name(name) {
        Some((ns, raw)) => match namespace_index(ns) {
            Some(k) => match lookup_row(db.table_at(11), ns) {
                Some(disp) => match lookup_row(db.table_at(k), raw) {
                    Some(v) => if v.1 != raw {
                        Some((id, disp.1 + ":"@ + v.1))
                    } else {
                        None
                    },
                    None => None,
                },
                None => None,
            },
            None => None,
        },
        None => None,
    }
}

/// The tag renames a metadata-update pass applies, in order.
pub open spec fn planned_tag_renames(db: &EhTagDb, rows: Seq<(i64, String)>) -> Seq<
    (i64, Seq<char>),
> {
    rows.filter_map(|r: (i64, String)| tag_rename_of(db, r.0, r.1@))
}

/// Splits a stored tag name at its only colon.
pub fn split_tag(s: &str) -> (r: Option<(String, String)>)
    ensures
        match r {
            Some((a, b)) => split_tag_name(s@) == Some((a@, b@)),
            None => split_tag_name(s@) is None,
        },
{
    let n = s.unicode_len();
    match find_first_of_two(s, ':', ':', 0) {
        Some(j) => {
            match find_first_of_two(s, ':', ':', j + 1) {
                Some(_) => None,
                None => Some(
                    (s.substring_char(0, j).to_owned(), s.substring_char(j + 1, n).to_owned()),
                ),
            }
        },
        None => None,
    }
}

/// Plans the tag renames: every stored `namespace:value` tag whose value
/// has a differing translation, renamed to the namespace's display name
/// and the translation, colon-joined.
pub fn plan_tag_updates(db: &EhTagDb, tags: &Vec<(i64, String)>) -> (r: Vec<(i64, String)>)
    requires
        db.wf(),
    ensures
        ({
            let plan = planned_tag_renames(db, tags@);
            r@.len() == plan.len() && forall|i: int|
                0 <= i < plan.len() ==> (#[trigger] r@[i]).0 == plan[i].0 && r@[i].1@
                    == plan[i].1
        }),
{
    let ghost f = |row: (i64, String)| tag_rename_of(db, row.0, row.1@);
    let mut out: Vec<(i64, String)> = Vec::new();
    let n = tags.len();
    proof {
        assert(tags@.take(0) =~= Seq::<(i64, String)>::empty());
        reveal_with_fuel(Seq::filter_map, 1);
        assert(tags@.take(0).filter_map(f) =~= Seq::<(i64, Seq<char>)>::empty());
    }
    for i in 0..n
        invariant
            n == tags@.len(),
            db.wf(),
            f == (|row: (i64, String)| tag_rename_of(db, row.0, row.1@)),
            ({
                let plan = tags@.take(i as int).filter_map(f);
                out@.len() == plan.len() && forall|j: int|
                    0 <= j < plan.len() ==> (#[trigger] out@[j]).0 == plan[j].0 && out@[j].1@
                        == plan[j].1
            }),
    {
        proof {
            assert(tags@.take(i + 1).drop_last() =~= tags@.take(i as int));
            assert(tags@.take(i + 1).last() == tags@[i as int]);
            Seq::lemma_filter_map_take_succ(tags@, f, i as int);
        }
        let (id, name) = (&tags[i].0, &tags[i].1);
        match split_tag(name.as_str()) {
            None => {},
            Some((ns, raw)) => {
                match namespace_index_of(ns.as_str()) {
                    None => {},
                    Some(_) => {
                        proof {
                            lemma_namespace_roundtrip();
                        }
                        let disp = match db.get_tag_name("rows", ns.as_str()) {
                            Ok(d) => d,
                            Err(_) => {
                                proof {
                                    assert(false);
                                }
                                None
                            },
                        };
                        match disp {
                            None => {},
                            Some(disp_name) => {
                                match db.get_tag_name(ns.as_str(), raw.as_str()) {
                                    Ok(Some(translation)) => {
                                        if !str_eq(translation.as_str(), raw.as_str()) {
                                            let mut joined = disp_name;
                                            joined.append(":");
                                            joined.append(translation.as_str());
                                            out.push((*id, joined));
                                        }
                                    },
                                    Ok(None) => {},
                                    Err(_) => {
                                        proof {
                                            assert(false);
                                        }
                                    },
                                }
                            },
                        }
                    },
                }
            },
        }
    }
    proof {
        assert(tags@.take(n as int) =~= tags@);
    }
    out
}

} // verus!
