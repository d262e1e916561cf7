//! The tag-translation cache: a per-namespace keyed store of translated
//! tag records, reconciled against a versioned upstream dataset by a
//! diff-based sync pass (insert / update / skip per entry).
//!
//! The store itself is plain data. Persisting it and fetching the
//! upstream dataset are the caller's business; the engine here decides
//! and applies the operations and is verified.

use vstd::prelude::*;
use vstd::string::*;

use crate::text::{contains_alpha, has_alpha, str_eq};

verus! {

/// One translation row: `raw` is the stable key, the other three fields
/// are the translation payload, replaced wholesale when upstream differs.
pub struct TagRecord {
    pub raw: String,
    pub name: String,
    pub intro: String,
    pub links: String,
}

/// The payload view of a row: the four character sequences.
pub open spec fn row_view(r: TagRecord) -> (Seq<char>, Seq<char>, Seq<char>, Seq<char>) {
    (r.raw@, r.name@, r.intro@, r.links@)
}

impl TagRecord {
    /// A copy equal to `self`.
    pub fn duplicate(&self) -> (r: TagRecord)
        ensures
            r == *self,
    {
        TagRecord {
            raw: self.raw.clone(),
            name: self.name.clone(),
            intro: self.intro.clone(),
            links: self.links.clone(),
        }
    }
}

/// What a sync pass does with one upstream entry.
#[derive(PartialEq, Eq, Structural, Clone, Copy, Debug)]
pub enum TagAction {
    Insert,
    Update,
    Skip,
}

/// One planned write (or non-write) of a sync pass.
pub struct TagOperation {
    pub raw: String,
    pub name: String,
    pub intro: String,
    pub links: String,
    pub operation: TagAction,
}

/// The payload view of an operation.
pub open spec fn op_view(o: TagOperation) -> (Seq<char>, Seq<char>, Seq<char>, Seq<char>) {
    (o.raw@, o.name@, o.intro@, o.links@)
}

/// The first row of `t` keyed by `raw`.
pub open spec fn find_raw(t: Seq<TagRecord>, raw: Seq<char>) -> Option<TagRecord>
    decreases t.len(),
{
    if t.len() == 0 {
        None
    } else if t[0].raw@ == raw {
        Some(t[0])
    } else {
        find_raw(t.drop_first(), raw)
    }
}

/// The payload of the row of `t` keyed by `raw`, if any.
pub open spec fn lookup_row(t: Seq<TagRecord>, raw: Seq<char>) -> Option<
    (Seq<char>, Seq<char>, Seq<char>, Seq<char>),
> {
    match find_raw(t, raw) {
        Some(r) => Some(row_view(r)),
        None => None,
    }
}

/// How a sync pass classifies upstream entry `e` against table `t`:
/// insert when no row holds its key, update when the stored payload
/// differs, skip when it is identical.
pub open spec fn classify(t: Seq<TagRecord>, e: TagRecord) -> TagAction {
    match lookup_row(t, e.raw@) {
        None => TagAction::Insert,
        Some(v) => if v.1 == e.name@ && v.2 == e.intro@ && v.3 == e.links@ {
            TagAction::Skip
        } else {
            TagAction::Update
        },
    }
}

/// A table is well formed when no two rows share a key.
pub open spec fn table_wf(t: Seq<TagRecord>) -> bool {
    forall|i: int, j: int| 0 <= i < j < t.len() ==> t[i].raw@ != t[j].raw@
}

/// How many namespaces the cache keeps.
pub const NAMESPACE_COUNT: usize = 12;

/// The name of namespace `k`.
pub open spec fn namespace_name(k: int) -> Seq<char> {
    if k == 0 { "artist"@ } else if k == 1 { "character"@ } else if k == 2 { "cosplayer"@ }
    else if k == 3 { "female"@ } else if k == 4 { "group"@ } else if k == 5 { "language"@ }
    else if k == 6 { "male"@ } else if k == 7 { "mixed"@ } else if k == 8 { "other"@ }
    else if k == 9 { "parody"@ } else if k == 10 { "reclass"@ } else { "rows"@ }
}

/// The index of the namespace named `s`, if it is one of the twelve.
pub open spec fn namespace_index(s: Seq<char>) -> Option<int> {
    if s == "artist"@ { Some(0int) } else if s == "character"@ { Some(1int) }
    else if s == "cosplayer"@ { Some(2int) } else if s == "female"@ { Some(3int) }
    else if s == "group"@ { Some(4int) } else if s == "language"@ { Some(5int) }
    else if s == "male"@ { Some(6int) } else if s == "mixed"@ { Some(7int) }
    else if s == "other"@ { Some(8int) } else if s == "parody"@ { Some(9int) }
    else if s == "reclass"@ { Some(10int) } else if s == "rows"@ { Some(11int) }
    else { None }
}

/// Law: the twelve namespace names are pairwise distinct, and looking a
/// name up yields the index it was named for.
pub proof fn lemma_namespace_roundtrip()
    ensures
        forall|k: int| 0 <= k < NAMESPACE_COUNT ==> namespace_index(#[trigger] namespace_name(k))
            == Some(k),
        namespace_index("artist"@) == Some(0int),
        namespace_index("character"@) == Some(1int),
        namespace_index("cosplayer"@) == Some(2int),
        namespace_index("female"@) == Some(3int),
        namespace_index("group"@) == Some(4int),
        namespace_index("language"@) == Some(5int),
        namespace_index("male"@) == Some(6int),
        namespace_index("mixed"@) == Some(7int),
        namespace_index("other"@) == Some(8int),
        namespace_index("parody"@) == Some(9int),
        namespace_index("reclass"@) == Some(10int),
        namespace_index("rows"@) == Some(11int),
{
        broadcast use vstd::string::group_string_axioms;

        reveal_strlit("artist");
        reveal_strlit("character");
        reveal_strlit("cosplayer");
        reveal_strlit("female");
        reveal_strlit("group");
        reveal_strlit("language");
        reveal_strlit("male");
        reveal_strlit("mixed");
        reveal_strlit("other");
        reveal_strlit("parody");
        reveal_strlit("reclass");
        reveal_strlit("rows");
        assert("artist"@.len() == 6);
        assert("character"@.len() == 9);
        assert("cosplayer"@.len() == 9);
        assert("female"@.len() == 6);
        assert("group"@.len() == 5);
        assert("language"@.len() == 8);
        assert("male"@.len() == 4);
        assert("mixed"@.len() == 5);
        assert("other"@.len() == 5);
        assert("parody"@.len() == 6);
        assert("reclass"@.len() == 7);
        assert("rows"@.len() == 4);
        assert("artist"@[0] == 'a');
        assert("female"@[0] == 'f');
        assert("artist"@ != "female"@);
        assert("artist"@[0] == 'a');
        assert("parody"@[0] == 'p');
        assert("artist"@ != "parody"@);
        assert("female"@[0] == 'f');
        assert("parody"@[0] == 'p');
        assert("female"@ != "parody"@);
        assert("character"@[1] == 'h');
        assert("cosplayer"@[1] == 'o');
        assert("character"@ != "cosplayer"@);
        assert("group"@[0] == 'g');
        assert("mixed"@[0] == 'm');
        assert("group"@ != "mixed"@);
        assert("group"@[0] == 'g');
        assert("other"@[0] == 'o');
        assert("group"@ != "other"@);
        assert("mixed"@[0] == 'm');
        assert("other"@[0] == 'o');
        assert("mixed"@ != "other"@);
        assert("male"@[0] == 'm');
        assert("rows"@[0] == 'r');
        assert("male"@ != "rows"@);
    assert forall|k: int| 0 <= k < NAMESPACE_COUNT implies namespace_index(
        #[trigger] namespace_name(k),
    ) == Some(k) by {
        if k == 0 { assert(namespace_index(namespace_name(0)) == Some(0int)); }
        else if k == 1 { assert(namespace_index(namespace_name(1)) == Some(1int)); }
        else if k == 2 { assert(namespace_index(namespace_name(2)) == Some(2int)); }
        else if k == 3 { assert(namespace_index(namespace_name(3)) == Some(3int)); }
        else if k == 4 { assert(namespace_index(namespace_name(4)) == Some(4int)); }
        else if k == 5 { assert(namespace_index(namespace_name(5)) == Some(5int)); }
        else if k == 6 { assert(namespace_index(namespace_name(6)) == Some(6int)); }
        else if k == 7 { assert(namespace_index(namespace_name(7)) == Some(7int)); }
        else if k == 8 { assert(namespace_index(namespace_name(8)) == Some(8int)); }
        else if k == 9 { assert(namespace_index(namespace_name(9)) == Some(9int)); }
        else if k == 10 { assert(namespace_index(namespace_name(10)) == Some(10int)); }
        else { assert(namespace_index(namespace_name(11)) == Some(11int)); }
    }
}

/// The name of namespace `k`, executable.
pub fn namespace_name_at(k: usize) -> (r: &'static str)
    requires
        k < NAMESPACE_COUNT,
    ensures
        r@ == namespace_name(k as int),
        namespace_index(r@) == Some(k as int),
{
    proof {
        lemma_namespace_roundtrip();
        assert(namespace_index(namespace_name(k as int)) == Some(k as int));
    }
    if k == 0 { "artist" }
    else if k == 1 { "character" }
    else if k == 2 { "cosplayer" }
    else if k == 3 { "female" }
    else if k == 4 { "group" }
    else if k == 5 { "language" }
    else if k == 6 { "male" }
    else if k == 7 { "mixed" }
    else if k == 8 { "other" }
    else if k == 9 { "parody" }
    else if k == 10 { "reclass" }
    else { "rows" }
}

/// Finds the index of the namespace named `s`.
pub fn namespace_index_of(s: &str) -> (r: Option<usize>)
    ensures
        match r {
            Some(k) => namespace_index(s@) == Some(k as int) && k < NAMESPACE_COUNT,
            None => namespace_index(s@) is None,
        },
{
    if str_eq(s, "artist") { Some(0) }
    else if str_eq(s, "character") { Some(1) }
    else if str_eq(s, "cosplayer") { Some(2) }
    else if str_eq(s, "female") { Some(3) }
    else if str_eq(s, "group") { Some(4) }
    else if str_eq(s, "language") { Some(5) }
    else if str_eq(s, "male") { Some(6) }
    else if str_eq(s, "mixed") { Some(7) }
    else if str_eq(s, "other") { Some(8) }
    else if str_eq(s, "parody") { Some(9) }
    else if str_eq(s, "reclass") { Some(10) }
    else if str_eq(s, "rows") { Some(11) }
    else { None }
}

/// The errors the cache reports: a lookup under a namespace outside the
/// fixed twelve, and a sync pass over a dataset that lacks one of them.
#[derive(PartialEq, Eq, Structural, Clone, Copy, Debug)]
pub enum TagDbError {
    UnknownNamespace,
    MissingNamespace,
}

impl TagDbError {
    /// A human-readable description.
    pub fn message(&self) -> (r: &'static str)
        ensures
            r@ == (match *self {
                TagDbError::UnknownNamespace => "unknown namespace"@,
                TagDbError::MissingNamespace => "namespace not found in dataset"@,
            }),
    {
        proof {
            reveal_strlit("unknown namespace");
            reveal_strlit("namespace not found in dataset");
        }
        match self {
            TagDbError::UnknownNamespace => "unknown namespace",
            TagDbError::MissingNamespace => "namespace not found in dataset",
        }
    }
}

/// The version record: which upstream dataset version the store holds.
pub struct Metadata {
    pub key: String,
    pub value: String,
}

/// The tag-translation store: one keyed table per namespace, plus the
/// last-applied upstream version.
pub struct EhTagDb {
    tables: Vec<Vec<TagRecord>>,
    version: Option<Metadata>,
}

impl EhTagDb {
    /// The rows of namespace table `k`.
    pub closed spec fn table_at(&self, k: int) -> Seq<TagRecord> {
        self.tables@[k]@
    }

    /// The stored upstream version, if any.
    pub closed spec fn stored_version(&self) -> Option<Seq<char>> {
        match self.version {
            Some(m) => Some(m.value@),
            None => None,
        }
    }

    /// Whether `self` and `other` hold exactly the same tables.
    pub closed spec fn same_tables(&self, other: &EhTagDb) -> bool {
        self.tables == other.tables
    }

    /// Well-formedness: twelve tables, each with unique keys, and the
    /// version record, when present, keyed by the fixed metadata key.
    pub closed spec fn wf(&self) -> bool {
        &&& self.tables@.len() == NAMESPACE_COUNT
        &&& forall|k: int| 0 <= k < NAMESPACE_COUNT ==> table_wf(#[trigger] self.table_at(k))
        &&& match self.version {
            Some(m) => m.key@ == "dataset_tag"@,
            None => true,
        }
    }

    /// An empty store: no rows, no stored version.
    pub fn new() -> (r: EhTagDb)
        ensures
            r.wf(),
            r.stored_version() is None,
            forall|k: int| 0 <= k < NAMESPACE_COUNT ==> (#[trigger] r.table_at(k)).len() == 0,
    {
        let mut tables: Vec<Vec<TagRecord>> = Vec::new();
        let mut k: usize = 0;
        while k < NAMESPACE_COUNT
            invariant
                tables@.len() == k,
                k <= NAMESPACE_COUNT,
                forall|j: int| 0 <= j < k ==> (#[trigger] tables@[j])@.len() == 0,
            decreases NAMESPACE_COUNT - k,
        {
            tables.push(Vec::new());
            k = k + 1;
        }
        EhTagDb { tables, version: None }
    }

    /// The stored upstream version.
    pub fn get_stored_version(&self) -> (r: Option<&String>)
        ensures
            match r {
                Some(v) => self.stored_version() == Some(v@),
                None => self.stored_version() is None,
            },
    {
        match &self.version {
            Some(m) => Some(&m.value),
            None => None,
        }
    }

    /// Records `version` as the applied upstream version.
    pub fn update_stored_version(&mut self, version: String)
        requires
            old(self).wf(),
        ensures
            final(self).wf(),
            final(self).stored_version() == Some(version@),
            final(self).same_tables(old(self)),
            forall|k: int| final(self).table_at(k) == old(self).table_at(k),
    {
        self.version = Some(Metadata { key: "dataset_tag".to_owned(), value: version });
        proof {
            assert forall|k: int| 0 <= k < NAMESPACE_COUNT implies table_wf(
                #[trigger] self.table_at(k),
            ) by {
                assert(table_wf(old(self).table_at(k)));
            }
        }
    }

    /// Looks the translated name of `raw_tag` up under `namespace`.
    /// Absence is an expected outcome, not an error; a namespace outside
    /// the fixed twelve is rejected.
    pub fn get_tag_name(&self, namespace: &str, raw_tag: &str) -> (r: Result<
        Option<String>,
        TagDbError,
    >)
        requires
            self.wf(),
        ensures
            r is Err <==> namespace_index(namespace@) is None,
            r is Err ==> r->Err_0 == TagDbError::UnknownNamespace,
            r matches Ok(opt) ==> {
                let looked = lookup_row(self.table_at(namespace_index(namespace@)->Some_0), raw_tag@);
                match opt {
                    Some(name) => looked matches Some(v) && name@ == v.1,
                    None => looked is None,
                }
            },
    {
        let k = match namespace_index_of(namespace) {
            Some(k) => k,
            None => {
                return Err(TagDbError::UnknownNamespace);
            },
        };
        let t = &self.tables[k];
        match find_row(t, raw_tag) {
            Some(row) => Ok(Some(row.name.clone())),
            None => Ok(None),
        }
    }
}

proof fn lemma_find_raw_skip(t: Seq<TagRecord>, raw: Seq<char>, i: int)
    requires
        0 <= i <= t.len(),
        forall|j: int| 0 <= j < i ==> t[j].raw@ != raw,
    ensures
        find_raw(t, raw) == find_raw(t.skip(i), raw),
    decreases i,
{
    if i > 0 {
        assert(t[0].raw@ != raw);
        lemma_find_raw_skip(t.drop_first(), raw, i - 1);
        assert(t.drop_first() =~= t.skip(1));
        assert(t.skip(1).skip(i - 1) =~= t.skip(i));
    } else {
        assert(t.skip(0) =~= t);
    }
}

/// Finds the first row of `t` keyed by `raw`.
pub fn find_row<'a>(t: &'a Vec<TagRecord>, raw: &str) -> (r: Option<&'a TagRecord>)
    ensures
        match r {
            Some(row) => find_raw(t@, raw@) == Some(*row),
            None => find_raw(t@, raw@) is None,
        },
{
    let n = t.len();
    for i in 0..n
        invariant
            n == t@.len(),
            forall|j: int| 0 <= j < i ==> t@[j].raw@ != raw@,
    {
        if str_eq(t[i].raw.as_str(), raw) {
            proof {
                lemma_find_raw_skip(t@, raw@, i as int);
                assert(t@.skip(i as int)[0] == t@[i as int]);
            }
            return Some(&t[i]);
        }
    }
    proof {
        lemma_find_raw_skip(t@, raw@, n as int);
        assert(t@.skip(n as int) =~= Seq::<TagRecord>::empty());
    }
    None
}

proof fn lemma_find_raw_some(t: Seq<TagRecord>, raw: Seq<char>)
    ensures
        match find_raw(t, raw) {
            Some(r) => r.raw@ == raw && t.contains(r),
            None => true,
        },
    decreases t.len(),
{
    if t.len() > 0 && t[0].raw@ != raw {
        lemma_find_raw_some(t.drop_first(), raw);
        if find_raw(t, raw) is Some {
            let r = find_raw(t, raw)->Some_0;
            assert(t.drop_first().contains(r));
            let w = choose|i: int| 0 <= i < t.drop_first().len() && t.drop_first()[i] == r;
            assert(t[w + 1] == r);
        }
    }
}

proof fn lemma_find_raw_none(t: Seq<TagRecord>, raw: Seq<char>)
    ensures
        (find_raw(t, raw) is None) <==> (forall|i: int| 0 <= i < t.len() ==> t[i].raw@ != raw),
    decreases t.len(),
{
    if t.len() > 0 {
        lemma_find_raw_none(t.drop_first(), raw);
        if t[0].raw@ == raw {
            assert(!(forall|i: int| 0 <= i < t.len() ==> t[i].raw@ != raw));
        } else {
            if find_raw(t, raw) is None {
                assert forall|i: int| 0 <= i < t.len() implies t[i].raw@ != raw by {
                    if i > 0 {
                        assert(t.drop_first()[i - 1] == t[i]);
                    }
                }
            } else {
                let w = choose|i: int|
                    !(0 <= i < t.drop_first().len() ==> t.drop_first()[i].raw@ != raw);
                assert(t[w + 1].raw@ == raw);
            }
        }
    }
}

proof fn lemma_find_raw_push(t: Seq<TagRecord>, r: TagRecord, q: Seq<char>)
    ensures
        find_raw(t.push(r), q) == (if find_raw(t, q) is Some {
            find_raw(t, q)
        } else if r.raw@ == q {
            Some(r)
        } else {
            None::<TagRecord>
        }),
    decreases t.len(),
{
    if t.len() == 0 {
        assert(t.push(r)[0] == r);
        assert(t.push(r).drop_first() =~= Seq::<TagRecord>::empty());
    } else {
        assert(t.push(r)[0] == t[0]);
        if t[0].raw@ == q {
            assert(find_raw(t, q) == Some(t[0]));
            assert(find_raw(t.push(r), q) == Some(t[0]));
        } else {
            assert(t.push(r).drop_first() =~= t.drop_first().push(r));
            lemma_find_raw_push(t.drop_first(), r, q);
            assert(find_raw(t.push(r), q) == find_raw(t.push(r).drop_first(), q));
            assert(find_raw(t, q) == find_raw(t.drop_first(), q));
        }
    }
}

proof fn lemma_find_raw_update(t: Seq<TagRecord>, i: int, r: TagRecord, q: Seq<char>)
    requires
        0 <= i < t.len(),
        table_wf(t),
        t[i].raw@ == r.raw@,
    ensures
        find_raw(t.update(i, r), q) == (if r.raw@ == q {
            Some(r)
        } else {
            find_raw(t, q)
        }),
    decreases t.len(),
{
    let u = t.update(i, r);
    if i == 0 {
        assert(u[0] == r);
        if r.raw@ != q {
            assert(t[0].raw@ != q);
            assert(u.drop_first() =~= t.drop_first());
        }
    } else {
        assert(u[0] == t[0]);
        if t[0].raw@ == q {
            // the key at index 0 differs from the one being replaced
            assert(t[0].raw@ != t[i].raw@);
        } else {
            assert(u.drop_first() =~= t.drop_first().update(i - 1, r));
            assert(table_wf(t.drop_first())) by {
                assert(forall|a: int, b: int|
                    0 <= a < b < t.drop_first().len() ==> (#[trigger] t.drop_first()[a]).raw@
                        != (#[trigger] t.drop_first()[b]).raw@) by {
                    assert(forall|a: int|
                        0 <= a < t.drop_first().len() ==> #[trigger] t.drop_first()[a] == t[a
                            + 1]);
                }
            }
            lemma_find_raw_update(t.drop_first(), i - 1, r, q);
        }
    }
}

/// Finds the index of the first row of `t` keyed by `raw`.
fn find_row_index(t: &Vec<TagRecord>, raw: &str) -> (r: Option<usize>)
    ensures
        match r {
            Some(i) => i < t@.len() && t@[i as int].raw@ == raw@ && find_raw(t@, raw@)
                == Some(t@[i as int]),
            None => find_raw(t@, raw@) is None,
        },
{
    let n = t.len();
    for i in 0..n
        invariant
            n == t@.len(),
            forall|j: int| 0 <= j < i ==> t@[j].raw@ != raw@,
    {
        if str_eq(t[i].raw.as_str(), raw) {
            proof {
                lemma_find_raw_skip(t@, raw@, i as int);
                assert(t@.skip(i as int)[0] == t@[i as int]);
            }
            return Some(i);
        }
    }
    proof {
        lemma_find_raw_skip(t@, raw@, n as int);
        assert(t@.skip(n as int) =~= Seq::<TagRecord>::empty());
    }
    None
}

/// How many operations of `ops` carry action `a`.
pub open spec fn count_action(ops: Seq<TagOperation>, a: TagAction) -> nat {
    ops.filter(|o: TagOperation| o.operation == a).len()
}

/// How many entries of `tags` a sync pass classifies as `a` against `t`.
pub open spec fn count_classified(t: Seq<TagRecord>, tags: Seq<TagRecord>, a: TagAction) -> nat {
    tags.filter(|e: TagRecord| classify(t, e) == a).len()
}

proof fn lemma_filter_len_pointwise(
    ops: Seq<TagOperation>,
    tags: Seq<TagRecord>,
    p: spec_fn(TagOperation) -> bool,
    q: spec_fn(TagRecord) -> bool,
)
    requires
        ops.len() == tags.len(),
        forall|i: int| 0 <= i < ops.len() ==> (p(#[trigger] ops[i]) <==> q(#[trigger] tags[i])),
    ensures
        ops.filter(p).len() == tags.filter(q).len(),
    decreases ops.len(),
{
    reveal(Seq::filter);
    if ops.len() > 0 {
        lemma_filter_len_pointwise(ops.drop_last(), tags.drop_last(), p, q);
    }
}

impl EhTagDb {
    /// The rows of namespace `namespace` whose keys occur in
    /// `raw_values`; a batch read ahead of classification.
    pub fn get_existing_tags(&self, namespace: &str, raw_values: &Vec<String>) -> (r: Result<
        Vec<TagRecord>,
        TagDbError,
    >)
        requires
            self.wf(),
            forall|i: int, j: int|
                0 <= i < j < raw_values@.len() ==> raw_values@[i]@ != raw_values@[j]@,
        ensures
            r is Err <==> namespace_index(namespace@) is None,
            r is Err ==> r->Err_0 == TagDbError::UnknownNamespace,
            r matches Ok(v) ==> {
                let t = self.table_at(namespace_index(namespace@)->Some_0);
                &&& table_wf(v@)
                &&& forall|i: int|
                    0 <= i < raw_values@.len() ==> find_raw(v@, #[trigger] raw_values@[i]@)
                        == find_raw(t, raw_values@[i]@)
                &&& forall|q: Seq<char>|
                    (forall|i: int| 0 <= i < raw_values@.len() ==> #[trigger] raw_values@[i]@ != q)
                        ==> #[trigger] find_raw(v@, q) is None
            },
    {
        let k = match namespace_index_of(namespace) {
            Some(k) => k,
            None => {
                return Err(TagDbError::UnknownNamespace);
            },
        };
        let t = &self.tables[k];
        let mut out: Vec<TagRecord> = Vec::new();
        let n = raw_values.len();
        for i in 0..n
            invariant
                n == raw_values@.len(),
                self.wf(),
                k < NAMESPACE_COUNT,
                namespace_index(namespace@) == Some(k as int),
                t@ == self.table_at(k as int),
                forall|a: int, b: int|
                    0 <= a < b < raw_values@.len() ==> raw_values@[a]@ != raw_values@[b]@,
                table_wf(out@),
                forall|j: int|
                    0 <= j < i ==> find_raw(out@, #[trigger] raw_values@[j]@) == find_raw(
                        t@,
                        raw_values@[j]@,
                    ),
                forall|q: Seq<char>|
                    (forall|j: int| 0 <= j < i ==> #[trigger] raw_values@[j]@ != q)
                        ==> #[trigger] find_raw(out@, q) is None,
        {
            let ghost out0 = out@;
            match find_row(t, raw_values[i].as_str()) {
                Some(row) => {
                    let dup = row.duplicate();
                    proof {
                        lemma_find_raw_some(t@, raw_values@[i as int]@);
                        assert(dup.raw@ == raw_values@[i as int]@);
                        // the new key is not yet present
                        assert(find_raw(out0, raw_values@[i as int]@) is None);
                        lemma_find_raw_none(out0, raw_values@[i as int]@);
                    }
                    out.push(dup);
                    proof {
                        assert forall|q: Seq<char>| true implies #[trigger] find_raw(out@, q)
                            == (if find_raw(out0, q) is Some {
                            find_raw(out0, q)
                        } else if dup.raw@ == q {
                            Some(dup)
                        } else {
                            None::<TagRecord>
                        }) by {
                            lemma_find_raw_push(out0, dup, q);
                        }
                        assert(table_wf(out@)) by {
                            assert(forall|a: int|
                                0 <= a < out0.len() ==> (#[trigger] out0[a]).raw@ != dup.raw@);
                            assert(forall|a: int|
                                0 <= a < out0.len() ==> out@[a] == #[trigger] out0[a]);
                            assert(out@[out0.len() as int] == dup);
                        }
                    }
                },
                None => {
                    proof {
                        assert(find_raw(out@, raw_values@[i as int]@) is None);
                    }
                },
            }
        }
        Ok(out)
    }
}

/// Applies planned operations to one table: inserts append a row,
/// updates replace the payload of the row with the same key, skips touch
/// nothing. Returns how many of each were applied.
pub fn apply_operations(t: &mut Vec<TagRecord>, operations: &Vec<TagOperation>) -> (counts: (
    usize,
    usize,
    usize,
))
    requires
        table_wf(old(t)@),
        forall|i: int, j: int|
            0 <= i < j < operations@.len() ==> operations@[i].raw@ != operations@[j].raw@,
        forall|i: int|
            0 <= i < operations@.len() ==> ((#[trigger] operations@[i]).operation
                == TagAction::Insert <==> find_raw(old(t)@, operations@[i].raw@) is None),
    ensures
        table_wf(final(t)@),
        counts.0 == count_action(operations@, TagAction::Insert),
        counts.1 == count_action(operations@, TagAction::Update),
        counts.2 == count_action(operations@, TagAction::Skip),
        forall|i: int|
            0 <= i < operations@.len() && (#[trigger] operations@[i]).operation != TagAction::Skip
                ==> lookup_row(final(t)@, operations@[i].raw@) == Some(op_view(operations@[i])),
        forall|i: int|
            0 <= i < operations@.len() && (#[trigger] operations@[i]).operation == TagAction::Skip
                ==> find_raw(final(t)@, operations@[i].raw@) == find_raw(
                old(t)@,
                operations@[i].raw@,
            ),
        forall|q: Seq<char>|
            (forall|i: int| 0 <= i < operations@.len() ==> (#[trigger] operations@[i]).raw@ != q)
                ==> #[trigger] find_raw(final(t)@, q) == find_raw(old(t)@, q),
{
    let ghost t0 = old(t)@;
    let mut ins: usize = 0;
    let mut upd: usize = 0;
    let mut skp: usize = 0;
    let n = operations.len();
    proof {
        reveal(Seq::filter);
        assert(operations@.take(0) =~= Seq::<TagOperation>::empty());
    }
    for i in 0..n
        invariant
            n == operations@.len(),
            table_wf(t@),
            forall|a: int, b: int|
                0 <= a < b < operations@.len() ==> operations@[a].raw@ != operations@[b].raw@,
            forall|a: int|
                0 <= a < operations@.len() ==> ((#[trigger] operations@[a]).operation
                    == TagAction::Insert <==> find_raw(t0, operations@[a].raw@) is None),
            ins == count_action(operations@.take(i as int), TagAction::Insert),
            upd == count_action(operations@.take(i as int), TagAction::Update),
            skp == count_action(operations@.take(i as int), TagAction::Skip),
            ins + upd + skp == i,
            forall|j: int|
                0 <= j < i && (#[trigger] operations@[j]).operation != TagAction::Skip
                    ==> lookup_row(t@, operations@[j].raw@) == Some(op_view(operations@[j])),
            forall|j: int|
                0 <= j < i && (#[trigger] operations@[j]).operation == TagAction::Skip
                    ==> find_raw(t@, operations@[j].raw@) == find_raw(t0, operations@[j].raw@),
            forall|q: Seq<char>|
                (forall|j: int| 0 <= j < i ==> (#[trigger] operations@[j]).raw@ != q)
                    ==> #[trigger] find_raw(t@, q) == find_raw(t0, q),
    {
        let ghost tc = t@;
        let op = &operations[i];
        proof {
            // this operation's key was not touched yet
            assert(find_raw(tc, op.raw@) == find_raw(t0, op.raw@));
        }
        match op.operation {
            TagAction::Insert => {
                let rec = TagRecord {
                    raw: op.raw.clone(),
                    name: op.name.clone(),
                    intro: op.intro.clone(),
                    links: op.links.clone(),
                };
                proof {
                    lemma_find_raw_none(tc, op.raw@);
                }
                t.push(rec);
                proof {
                    assert forall|q: Seq<char>| true implies #[trigger] find_raw(t@, q) == (
                    if find_raw(tc, q) is Some {
                        find_raw(tc, q)
                    } else if rec.raw@ == q {
                        Some(rec)
                    } else {
                        None::<TagRecord>
                    }) by {
                        lemma_find_raw_push(tc, rec, q);
                    }
                    assert(table_wf(t@)) by {
                        assert(forall|a: int|
                            0 <= a < tc.len() ==> (#[trigger] tc[a]).raw@ != rec.raw@);
                        assert(forall|a: int| 0 <= a < tc.len() ==> t@[a] == #[trigger] tc[a]);
                        assert(t@[tc.len() as int] == rec);
                    }
                    assert(lookup_row(t@, op.raw@) == Some(op_view(operations@[i as int])));
                }
                ins = ins + 1;
            },
            TagAction::Update => {
                let idx = match find_row_index(t, op.raw.as_str()) {
                    Some(idx) => idx,
                    None => {
                        proof {
                            assert(false);
                        }
                        0
                    },
                };
                let rec = TagRecord {
                    raw: op.raw.clone(),
                    name: op.name.clone(),
                    intro: op.intro.clone(),
                    links: op.links.clone(),
                };
                t[idx] = rec;
                proof {
                    assert forall|q: Seq<char>| true implies #[trigger] find_raw(t@, q) == (
                    if rec.raw@ == q {
                        Some(rec)
                    } else {
                        find_raw(tc, q)
                    }) by {
                        lemma_find_raw_update(tc, idx as int, rec, q);
                    }
                    assert(table_wf(t@)) by {
                        assert(forall|a: int|
                            0 <= a < t@.len() && a != idx ==> t@[a] == #[trigger] tc[a]);
                        assert(t@[idx as int].raw@ == tc[idx as int].raw@);
                    }
                    assert(lookup_row(t@, op.raw@) == Some(op_view(operations@[i as int])));
                }
                upd = upd + 1;
            },
            TagAction::Skip => {
                skp = skp + 1;
            },
        }
        proof {
            reveal(Seq::filter);
            assert(operations@.take(i + 1).drop_last() =~= operations@.take(i as int));
            assert(operations@.take(i + 1).last() == operations@[i as int]);
        }
    }
    proof {
        assert(operations@.take(n as int) =~= operations@);
    }
    (ins, upd, skp)
}

/// Plans the sync operations for `tag_list` against the already-stored
/// rows `existing_records`: insert when absent, update when the stored
/// payload differs, skip when identical.
pub fn get_operations(tag_list: &Vec<TagRecord>, existing_records: &Vec<TagRecord>) -> (ops: Vec<
    TagOperation,
>)
    ensures
        ops@.len() == tag_list@.len(),
        forall|i: int|
            0 <= i < ops@.len() ==> op_view(#[trigger] ops@[i]) == row_view(tag_list@[i])
                && ops@[i].operation == classify(existing_records@, tag_list@[i]),
{
    let mut ops: Vec<TagOperation> = Vec::new();
    let n = tag_list.len();
    for i in 0..n
        invariant
            n == tag_list@.len(),
            ops@.len() == i,
            forall|j: int|
                0 <= j < i ==> op_view(#[trigger] ops@[j]) == row_view(tag_list@[j])
                    && ops@[j].operation == classify(existing_records@, tag_list@[j]),
    {
        let e = &tag_list[i];
        let action = match find_row(existing_records, e.raw.as_str()) {
            None => TagAction::Insert,
            Some(row) => {
                if str_eq(row.name.as_str(), e.name.as_str()) && str_eq(
                    row.intro.as_str(),
                    e.intro.as_str(),
                ) && str_eq(row.links.as_str(), e.links.as_str()) {
                    TagAction::Skip
                } else {
                    TagAction::Update
                }
            },
        };
        ops.push(TagOperation {
            raw: e.raw.clone(),
            name: e.name.clone(),
            intro: e.intro.clone(),
            links: e.links.clone(),
            operation: action,
        });
    }
    ops
}

/// One namespace of the upstream dataset: its name and its entries.
pub struct NamespaceData {
    pub namespace: String,
    pub data: Vec<TagRecord>,
}

/// The first dataset namespace named `name`.
pub open spec fn dataset_find(ds: Seq<NamespaceData>, name: Seq<char>) -> Option<NamespaceData>
    decreases ds.len(),
{
    if ds.len() == 0 {
        None
    } else if ds[0].namespace@ == name {
        Some(ds[0])
    } else {
        dataset_find(ds.drop_first(), name)
    }
}

/// The entries the sync pass considers for namespace `k`: the dataset's
/// entries under that name whose raw key holds at least one letter.
pub open spec fn filtered_entries(ds: Seq<NamespaceData>, k: int) -> Seq<TagRecord> {
    match dataset_find(ds, namespace_name(k)) {
        Some(nd) => nd.data@.filter(|e: TagRecord| has_alpha(e.raw@)),
        None => Seq::empty(),
    }
}

proof fn lemma_dataset_find_skip(ds: Seq<NamespaceData>, name: Seq<char>, i: int)
    requires
        0 <= i <= ds.len(),
        forall|j: int| 0 <= j < i ==> ds[j].namespace@ != name,
    ensures
        dataset_find(ds, name) == dataset_find(ds.skip(i), name),
    decreases i,
{
    if i > 0 {
        lemma_dataset_find_skip(ds.drop_first(), name, i - 1);
        assert(ds.drop_first() =~= ds.skip(1));
        assert(ds.skip(1).skip(i - 1) =~= ds.skip(i));
    } else {
        assert(ds.skip(0) =~= ds);
    }
}

/// Whether the raw keys of `s` are pairwise distinct.
pub open spec fn raws_unique(s: Seq<TagRecord>) -> bool {
    forall|i: int, j: int| 0 <= i < j < s.len() ==> s[i].raw@ != s[j].raw@
}

/// Pulls the candidate entries for `namespace` out of the dataset:
/// exactly those whose raw key holds at least one letter, in dataset
/// order. Fails when the dataset lacks the namespace.
pub fn extract_tags_from_json(json_data: &Vec<NamespaceData>, namespace: &str) -> (r: Result<
    Vec<TagRecord>,
    TagDbError,
>)
    ensures
        r is Err <==> dataset_find(json_data@, namespace@) is None,
        r is Err ==> r->Err_0 == TagDbError::MissingNamespace,
        r matches Ok(v) ==> {
            let nd = dataset_find(json_data@, namespace@)->Some_0;
            &&& v@ == nd.data@.filter(|e: TagRecord| has_alpha(e.raw@))
            &&& raws_unique(nd.data@) ==> raws_unique(v@)
        },
{
    let n = json_data.len();
    let mut w: usize = 0;
    while w < n && !str_eq(json_data[w].namespace.as_str(), namespace)
        invariant
            n == json_data@.len(),
            w <= n,
            forall|j: int| 0 <= j < w ==> json_data@[j].namespace@ != namespace@,
        decreases n - w,
    {
        w = w + 1;
    }
    proof {
        lemma_dataset_find_skip(json_data@, namespace@, w as int);
    }
    if w == n {
        proof {
            assert(json_data@.skip(n as int) =~= Seq::<NamespaceData>::empty());
        }
        return Err(TagDbError::MissingNamespace);
    }
    proof {
        assert(json_data@.skip(w as int)[0] == json_data@[w as int]);
    }
    let nd = &json_data[w];
    let ghost pred = |e: TagRecord| has_alpha(e.raw@);
    let mut out: Vec<TagRecord> = Vec::new();
    let m = nd.data.len();
    proof {
        reveal(Seq::filter);
        assert(nd.data@.take(0) =~= Seq::<TagRecord>::empty());
    }
    for i in 0..m
        invariant
            m == nd.data@.len(),
            out@ == nd.data@.take(i as int).filter(pred),
            pred == (|e: TagRecord| has_alpha(e.raw@)),
    {
        let ghost out0 = out@;
        let e = &nd.data[i];
        if contains_alpha(e.raw.as_str()) {
            out.push(e.duplicate());
        }
        proof {
            reveal(Seq::filter);
            assert(nd.data@.take(i + 1).drop_last() =~= nd.data@.take(i as int));
            assert(nd.data@.take(i + 1).last() == nd.data@[i as int]);
        }
    }
    proof {
        assert(nd.data@.take(m as int) =~= nd.data@);
        if raws_unique(nd.data@) {
            lemma_filter_raws_unique(nd.data@, pred);
        }
    }
    Ok(out)
}

proof fn lemma_filter_raws_unique(s: Seq<TagRecord>, pred: spec_fn(TagRecord) -> bool)
    requires
        raws_unique(s),
    ensures
        raws_unique(s.filter(pred)),
    decreases s.len(),
{
    reveal(Seq::filter);
    if s.len() > 0 {
        lemma_filter_raws_unique(s.drop_last(), pred);
        if pred(s.last()) {
            let f = s.drop_last().filter(pred);
            assert forall|a: int| 0 <= a < f.len() implies f[a].raw@ != s.last().raw@ by {
                Seq::lemma_filter_contains_rev(s.drop_last(), pred, f[a]);
                let w = choose|i: int|
                    0 <= i < s.drop_last().len() && s.drop_last()[i] == f[a];
                assert(s[w] == f[a]);
            }
        }
    }
}

impl EhTagDb {
    /// The data-quality gate on raw keys: at least one letter.
    pub fn check(s: &str) -> (r: bool)
        ensures
            r == has_alpha(s@),
    {
        contains_alpha(s)
    }

    /// Applies planned operations to the table of `namespace`, all or
    /// nothing, and reports how many inserts, updates and skips it made.
    pub fn execute_operations(&mut self, namespace: &str, operations: &Vec<TagOperation>) -> (r:
        Result<(usize, usize, usize), TagDbError>)
        requires
            old(self).wf(),
            forall|i: int, j: int|
                0 <= i < j < operations@.len() ==> operations@[i].raw@ != operations@[j].raw@,
            namespace_index(namespace@) matches Some(k) ==> forall|i: int|
                0 <= i < operations@.len() ==> ((#[trigger] operations@[i]).operation
                    == TagAction::Insert <==> find_raw(old(self).table_at(k), operations@[i].raw@)
                    is None),
        ensures
            final(self).wf(),
            r is Err <==> namespace_index(namespace@) is None,
            r is Err ==> r->Err_0 == TagDbError::UnknownNamespace && *final(self) == *old(self),
            final(self).stored_version() == old(self).stored_version(),
            r matches Ok(counts) ==> {
                let k = namespace_index(namespace@)->Some_0;
                let t0 = old(self).table_at(k);
                let t1 = final(self).table_at(k);
                &&& counts.0 == count_action(operations@, TagAction::Insert)
                &&& counts.1 == count_action(operations@, TagAction::Update)
                &&& counts.2 == count_action(operations@, TagAction::Skip)
                &&& forall|i: int|
                    0 <= i < operations@.len() && (#[trigger] operations@[i]).operation
                        != TagAction::Skip ==> lookup_row(t1, operations@[i].raw@) == Some(
                        op_view(operations@[i]),
                    )
                &&& forall|i: int|
                    0 <= i < operations@.len() && (#[trigger] operations@[i]).operation
                        == TagAction::Skip ==> find_raw(t1, operations@[i].raw@) == find_raw(
                        t0,
                        operations@[i].raw@,
                    )
                &&& forall|q: Seq<char>|
                    (forall|i: int|
                        0 <= i < operations@.len() ==> (#[trigger] operations@[i]).raw@ != q)
                        ==> #[trigger] find_raw(t1, q) == find_raw(t0, q)
                &&& forall|j: int|
                    0 <= j < NAMESPACE_COUNT && j != k ==> final(self).table_at(j) == old(self).table_at(j)
            },
    {
        let k = match namespace_index_of(namespace) {
            Some(k) => k,
            None => {
                return Err(TagDbError::UnknownNamespace);
            },
        };
        let counts = apply_operations(&mut self.tables[k], operations);
        proof {
            assert(final(self).table_at(k as int) == final(self).tables@[k as int]@);
            assert forall|j: int| 0 <= j < NAMESPACE_COUNT && j != k implies final(self).table_at(j) == old(self).table_at(j) by {
                assert(final(self).tables@[j] == old(self).tables@[j]);
            }
            assert forall|j: int| 0 <= j < NAMESPACE_COUNT implies table_wf(
                #[trigger] final(self).table_at(j),
            ) by {
                if j != k {
                    assert(table_wf(old(self).table_at(j)));
                }
            }
        }
        Ok(counts)
    }

    /// One sync pass over one namespace: reads the rows already stored
    /// for the upstream keys, classifies every entry, applies the
    /// inserts and updates, and reports the counts.
    #[verifier::rlimit(50)]
    pub fn update_namespace(&mut self, namespace: &str, tag_list: &Vec<TagRecord>) -> (r: Result<
        (usize, usize, usize),
        TagDbError,
    >)
        requires
            old(self).wf(),
            raws_unique(tag_list@),
        ensures
            final(self).wf(),
            r is Err <==> namespace_index(namespace@) is None,
            r is Err ==> r->Err_0 == TagDbError::UnknownNamespace && *final(self) == *old(self),
            final(self).stored_version() == old(self).stored_version(),
            r matches Ok(counts) ==> {
                let k = namespace_index(namespace@)->Some_0;
                let t0 = old(self).table_at(k);
                let t1 = final(self).table_at(k);
                &&& counts.0 == count_classified(t0, tag_list@, TagAction::Insert)
                &&& counts.1 == count_classified(t0, tag_list@, TagAction::Update)
                &&& counts.2 == count_classified(t0, tag_list@, TagAction::Skip)
                &&& counts.0 + counts.1 + counts.2 == tag_list@.len()
                &&& forall|i: int|
                    0 <= i < tag_list@.len() ==> lookup_row(t1, (#[trigger] tag_list@[i]).raw@)
                        == Some(row_view(tag_list@[i]))
                &&& forall|q: Seq<char>|
                    (forall|i: int| 0 <= i < tag_list@.len() ==> (#[trigger] tag_list@[i]).raw@
                        != q) ==> #[trigger] find_raw(t1, q) == find_raw(t0, q)
                &&& forall|j: int|
                    0 <= j < NAMESPACE_COUNT && j != k ==> final(self).table_at(j) == old(self).table_at(j)
            },
    {
        let mut raws: Vec<String> = Vec::new();
        let n = tag_list.len();
        for i in 0..n
            invariant
                n == tag_list@.len(),
                raws@.len() == i,
                forall|j: int| 0 <= j < i ==> (#[trigger] raws@[j])@ == tag_list@[j].raw@,
                raws_unique(tag_list@),
        {
            raws.push(tag_list[i].raw.clone());
        }
        let existing = match self.get_existing_tags(namespace, &raws) {
            Ok(v) => v,
            Err(e) => {
                return Err(e);
            },
        };
        let ghost k = namespace_index(namespace@)->Some_0;
        let ghost t0 = self.table_at(k);
        let ops = get_operations(tag_list, &existing);
        proof {
            // classification against the batch read equals classification
            // against the full table, entry by entry
            assert forall|i: int| 0 <= i < tag_list@.len() implies classify(
                existing@,
                #[trigger] tag_list@[i],
            ) == classify(t0, tag_list@[i]) by {
                assert(raws@[i]@ == tag_list@[i].raw@);
                assert(find_raw(existing@, raws@[i]@) == find_raw(t0, raws@[i]@));
            }
            assert forall|i: int, j: int| 0 <= i < j < ops@.len() implies ops@[i].raw@
                != ops@[j].raw@ by {
                assert(op_view(ops@[i]).0 == tag_list@[i].raw@);
                assert(op_view(ops@[j]).0 == tag_list@[j].raw@);
            }
            assert forall|i: int| 0 <= i < ops@.len() implies ((#[trigger] ops@[i]).operation
                == TagAction::Insert <==> find_raw(t0, ops@[i].raw@) is None) by {
                assert(ops@[i].operation == classify(t0, tag_list@[i]));
                assert(ops@[i].raw@ == tag_list@[i].raw@);
            }
        }
        let counts = match self.execute_operations(namespace, &ops) {
            Ok(c) => c,
            Err(e) => {
                return Err(e);
            },
        };
        proof {
            let t1 = self.table_at(k);
            lemma_filter_len_pointwise(
                ops@,
                tag_list@,
                |o: TagOperation| o.operation == TagAction::Insert,
                |e: TagRecord| classify(t0, e) == TagAction::Insert,
            );
            lemma_filter_len_pointwise(
                ops@,
                tag_list@,
                |o: TagOperation| o.operation == TagAction::Update,
                |e: TagRecord| classify(t0, e) == TagAction::Update,
            );
            lemma_filter_len_pointwise(
                ops@,
                tag_list@,
                |o: TagOperation| o.operation == TagAction::Skip,
                |e: TagRecord| classify(t0, e) == TagAction::Skip,
            );
            lemma_counts_partition(t0, tag_list@);
            assert forall|i: int| 0 <= i < tag_list@.len() implies lookup_row(
                t1,
                (#[trigger] tag_list@[i]).raw@,
            ) == Some(row_view(tag_list@[i])) by {
                if ops@[i].operation == TagAction::Skip {
                    // the stored payload already equals the upstream one
                    assert(classify(t0, tag_list@[i]) == TagAction::Skip);
                    lemma_find_raw_some(t0, tag_list@[i].raw@);
                    assert(find_raw(t1, tag_list@[i].raw@) == find_raw(t0, tag_list@[i].raw@));
                } else {
                    assert(lookup_row(t1, ops@[i].raw@) == Some(op_view(ops@[i])));
                }
            }
        }
        Ok(counts)
    }
}

/// What one full sync pass did.
#[derive(PartialEq, Eq, Structural, Clone, Copy, Debug)]
pub enum SyncOutcome {
    /// The stored version already matched upstream; nothing was read or
    /// written.
    NoOp,
    /// The dataset was applied: how many rows were inserted, updated and
    /// left alone.
    Applied { inserted: usize, updated: usize, skipped: usize },
}

/// One namespace table after a sync pass against `entries`: every entry
/// is stored with the upstream payload, and every key that no entry
/// carries reads exactly as before.
pub open spec fn namespace_synced(
    t0: Seq<TagRecord>,
    t1: Seq<TagRecord>,
    entries: Seq<TagRecord>,
) -> bool {
    &&& forall|i: int|
        0 <= i < entries.len() ==> lookup_row(t1, (#[trigger] entries[i]).raw@) == Some(
            row_view(entries[i]),
        )
    &&& forall|q: Seq<char>|
        (forall|i: int| 0 <= i < entries.len() ==> (#[trigger] entries[i]).raw@ != q)
            ==> #[trigger] find_raw(t1, q) == find_raw(t0, q)
}

/// The summed classification counts of the first `k` namespaces.
pub open spec fn prefix_total(
    db: EhTagDb,
    ds: Seq<NamespaceData>,
    a: TagAction,
    k: int,
) -> nat
    decreases k,
{
    if k <= 0 {
        0
    } else {
        prefix_total(db, ds, a, k - 1) + count_classified(
            db.table_at(k - 1),
            filtered_entries(ds, k - 1),
            a,
        )
    }
}

/// The summed classification counts of a full sync pass over `db`.
pub open spec fn sync_total(db: EhTagDb, ds: Seq<NamespaceData>, a: TagAction) -> nat {
    prefix_total(db, ds, a, NAMESPACE_COUNT as int)
}

/// `n` capped at the largest `usize`.
pub open spec fn cap_usize(n: nat) -> nat {
    if n <= usize::MAX {
        n
    } else {
        usize::MAX as nat
    }
}

proof fn lemma_dataset_find_some(ds: Seq<NamespaceData>, name: Seq<char>)
    ensures
        match dataset_find(ds, name) {
            Some(nd) => nd.namespace@ == name && ds.contains(nd),
            None => true,
        },
    decreases ds.len(),
{
    if ds.len() > 0 && ds[0].namespace@ != name {
        lemma_dataset_find_some(ds.drop_first(), name);
        if dataset_find(ds, name) is Some {
            let nd = dataset_find(ds, name)->Some_0;
            assert(ds.drop_first().contains(nd));
            let w = choose|i: int| 0 <= i < ds.drop_first().len() && ds.drop_first()[i] == nd;
            assert(ds[w + 1] == nd);
        }
    }
}

impl EhTagDb {
    /// One full sync pass. When the stored version already equals
    /// `upstream_version` this is a no-op; otherwise every namespace is
    /// reconciled against the dataset (entries whose raw key holds no
    /// letter are ignored) and only then is the new version recorded, so
    /// an interrupted pass leaves the old version in place and a later
    /// pass safely redoes the work.
    pub fn resync(&mut self, upstream_version: &str, dataset: &Vec<NamespaceData>) -> (r: Result<
        SyncOutcome,
        TagDbError,
    >)
        requires
            old(self).wf(),
            // each namespace of the dataset is a mapping: keys unique
            forall|d: int| 0 <= d < dataset@.len() ==> raws_unique((#[trigger] dataset@[d]).data@),
        ensures
            final(self).wf(),
            old(self).stored_version() == Some(upstream_version@) ==> r == Ok::<SyncOutcome, TagDbError>(SyncOutcome::NoOp)
                && *final(self) == *old(self),
            r matches Ok(out) ==> ((out == SyncOutcome::NoOp) <==> old(self).stored_version()
                == Some(upstream_version@)),
            r is Err ==> {
                &&& r->Err_0 == TagDbError::MissingNamespace
                &&& final(self).stored_version() == old(self).stored_version()
                &&& exists|k: int|
                    0 <= k < NAMESPACE_COUNT && dataset_find(
                        dataset@,
                        #[trigger] namespace_name(k),
                    ) is None
                &&& forall|k: int|
                    0 <= k < NAMESPACE_COUNT ==> (final(self).table_at(k) == old(self).table_at(k)
                        || namespace_synced(
                        old(self).table_at(k),
                        final(self).table_at(k),
                        filtered_entries(dataset@, k),
                    ))
            },
            r matches Ok(out) && out != SyncOutcome::NoOp ==> {
                &&& final(self).stored_version() == Some(upstream_version@)
                &&& forall|k: int|
                    0 <= k < NAMESPACE_COUNT ==> namespace_synced(
                        old(self).table_at(k),
                        final(self).table_at(k),
                        filtered_entries(dataset@, k),
                    )
            },
            r matches Ok(SyncOutcome::Applied { inserted, updated, skipped }) ==> {
                &&& inserted == cap_usize(sync_total(*old(self), dataset@, TagAction::Insert))
                &&& updated == cap_usize(sync_total(*old(self), dataset@, TagAction::Update))
                &&& skipped == cap_usize(sync_total(*old(self), dataset@, TagAction::Skip))
            },
    {
        let ghost db0 = *old(self);
        let already_current = match self.get_stored_version() {
            Some(v) => str_eq(v.as_str(), upstream_version),
            None => false,
        };
        if already_current {
            return Ok(SyncOutcome::NoOp);
        }
        assert(old(self).stored_version() != Some(upstream_version@));
        let mut ins_total: usize = 0;
        let mut upd_total: usize = 0;
        let mut skp_total: usize = 0;
        let mut k: usize = 0;
        while k < NAMESPACE_COUNT
            invariant
                self.wf(),
                k <= NAMESPACE_COUNT,
                db0 == *old(self),
                db0.stored_version() != Some(upstream_version@),
                self.stored_version() == db0.stored_version(),
                forall|d: int|
                    0 <= d < dataset@.len() ==> raws_unique((#[trigger] dataset@[d]).data@),
                forall|j: int|
                    k <= j < NAMESPACE_COUNT ==> #[trigger] self.table_at(j) == db0.table_at(j),
                forall|j: int|
                    0 <= j < k ==> dataset_find(dataset@, #[trigger] namespace_name(j)) is Some,
                forall|j: int|
                    0 <= j < k ==> namespace_synced(
                        db0.table_at(j),
                        #[trigger] self.table_at(j),
                        filtered_entries(dataset@, j),
                    ),
                ins_total == cap_usize(prefix_total(db0, dataset@, TagAction::Insert, k as int)),
                upd_total == cap_usize(prefix_total(db0, dataset@, TagAction::Update, k as int)),
                skp_total == cap_usize(prefix_total(db0, dataset@, TagAction::Skip, k as int)),
            decreases NAMESPACE_COUNT - k,
        {
            let ns_name = namespace_name_at(k);
            let tag_list = match extract_tags_from_json(dataset, ns_name) {
                Ok(t) => t,
                Err(e) => {
                    return Err(e);
                },
            };
            proof {
                lemma_dataset_find_some(dataset@, ns_name@);
                let nd = dataset_find(dataset@, ns_name@)->Some_0;
                let w = choose|i: int| 0 <= i < dataset@.len() && dataset@[i] == nd;
                assert(raws_unique(nd.data@));
                assert(tag_list@ == filtered_entries(dataset@, k as int));
            }
            let ghost before = *self;
            let counts = match self.update_namespace(ns_name, &tag_list) {
                Ok(c) => c,
                Err(e) => {
                    proof {
                        assert(false);
                    }
                    return Err(e);
                },
            };
            ins_total = ins_total.saturating_add(counts.0);
            upd_total = upd_total.saturating_add(counts.1);
            skp_total = skp_total.saturating_add(counts.2);
            k = k + 1;
        }
        self.update_stored_version(upstream_version.to_owned());
        Ok(SyncOutcome::Applied { inserted: ins_total, updated: upd_total, skipped: skp_total })
    }
}

impl EhTagDb {
    /// A snapshot of every namespace: for each of the twelve, its name
    /// and its `(raw, name)` pairs in table order.
    pub fn get_all_tags(&self) -> (r: Vec<(String, Vec<(String, String)>)>)
        requires
            self.wf(),
        ensures
            r@.len() == NAMESPACE_COUNT,
            forall|k: int|
                0 <= k < NAMESPACE_COUNT ==> {
                    let (name, rows) = #[trigger] r@[k];
                    &&& name@ == namespace_name(k)
                    &&& rows@.len() == self.table_at(k).len()
                    &&& forall|i: int|
                        0 <= i < rows@.len() ==> (#[trigger] rows@[i]).0@ == self.table_at(
                            k,
                        )[i].raw@ && rows@[i].1@ == self.table_at(k)[i].name@
                },
    {
        let mut all: Vec<(String, Vec<(String, String)>)> = Vec::new();
        let mut k: usize = 0;
        while k < NAMESPACE_COUNT
            invariant
                self.wf(),
                k <= NAMESPACE_COUNT,
                all@.len() == k,
                forall|j: int|
                    0 <= j < k ==> {
                        let (name, rows) = #[trigger] all@[j];
                        &&& name@ == namespace_name(j)
                        &&& rows@.len() == self.table_at(j).len()
                        &&& forall|i: int|
                            0 <= i < rows@.len() ==> (#[trigger] rows@[i]).0@ == self.table_at(
                                j,
                            )[i].raw@ && rows@[i].1@ == self.table_at(j)[i].name@
                    },
            decreases NAMESPACE_COUNT - k,
        {
            let t = &self.tables[k];
            let mut rows: Vec<(String, String)> = Vec::new();
            let n = t.len();
            for i in 0..n
                invariant
                    n == t@.len(),
                    rows@.len() == i,
                    forall|w: int|
                        0 <= w < i ==> (#[trigger] rows@[w]).0@ == t@[w].raw@ && rows@[w].1@
                            == t@[w].name@,
            {
                rows.push((t[i].raw.clone(), t[i].name.clone()));
            }
            all.push((namespace_name_at(k).to_owned(), rows));
            k = k + 1;
        }
        all
    }
}

impl EhTagDb {
    /// A full snapshot of every namespace: its name and copies of its
    /// rows, payload included, in table order.
    pub fn all_records(&self) -> (r: Vec<(String, Vec<TagRecord>)>)
        requires
            self.wf(),
        ensures
            r@.len() == NAMESPACE_COUNT,
            forall|k: int|
                0 <= k < NAMESPACE_COUNT ==> {
                    let (name, rows) = #[trigger] r@[k];
                    &&& name@ == namespace_name(k)
                    &&& rows@ == self.table_at(k)
                },
    {
        let mut all: Vec<(String, Vec<TagRecord>)> = Vec::new();
        let mut k: usize = 0;
        while k < NAMESPACE_COUNT
            invariant
                self.wf(),
                k <= NAMESPACE_COUNT,
                all@.len() == k,
                forall|j: int|
                    0 <= j < k ==> {
                        let (name, rows) = #[trigger] all@[j];
                        &&& name@ == namespace_name(j)
                        &&& rows@ == self.table_at(j)
                    },
            decreases NAMESPACE_COUNT - k,
        {
            let t = &self.tables[k];
            let mut rows: Vec<TagRecord> = Vec::new();
            let n = t.len();
            for i in 0..n
                invariant
                    n == t@.len(),
                    rows@ =~= t@.take(i as int),
            {
                rows.push(t[i].duplicate());
                proof {
                    assert(t@.take(i + 1) =~= t@.take(i as int).push(t@[i as int]));
                }
            }
            proof {
                assert(t@.take(n as int) =~= t@);
            }
            all.push((namespace_name_at(k).to_owned(), rows));
            k = k + 1;
        }
        all
    }
}

/// Law (raw-key filter): a sync pass never touches a key that holds no
/// letter. Whatever the dataset carries under such a key, after a synced
/// pass over namespace `k` the store reads exactly as before for it.
pub proof fn lemma_raw_key_filter(
    t0: Seq<TagRecord>,
    t1: Seq<TagRecord>,
    ds: Seq<NamespaceData>,
    k: int,
    q: Seq<char>,
)
    requires
        namespace_synced(t0, t1, filtered_entries(ds, k)),
        !has_alpha(q),
    ensures
        find_raw(t1, q) == find_raw(t0, q),
{
    let entries = filtered_entries(ds, k);
    assert forall|i: int| 0 <= i < entries.len() implies (#[trigger] entries[i]).raw@ != q by {
        match dataset_find(ds, namespace_name(k)) {
            Some(nd) => {
                Seq::lemma_filter_pred(nd.data@, |e: TagRecord| has_alpha(e.raw@), i);
                assert(has_alpha(entries[i].raw@));
            },
            None => {},
        }
    }
}

/// Law (raw-key filter, store level): a full sync pass leaves every key
/// that holds no letter reading exactly as before, in every namespace,
/// whatever the dataset carried under such keys.
pub proof fn lemma_sync_ignores_nonalpha_keys(
    db0: &EhTagDb,
    db1: &EhTagDb,
    ds: Seq<NamespaceData>,
    q: Seq<char>,
)
    requires
        forall|k: int|
            0 <= k < NAMESPACE_COUNT ==> namespace_synced(
                db0.table_at(k),
                #[trigger] db1.table_at(k),
                filtered_entries(ds, k),
            ),
        !has_alpha(q),
    ensures
        forall|k: int|
            0 <= k < NAMESPACE_COUNT ==> find_raw(#[trigger] db1.table_at(k), q) == find_raw(
                db0.table_at(k),
                q,
            ),
{
    assert forall|k: int| 0 <= k < NAMESPACE_COUNT implies find_raw(
        #[trigger] db1.table_at(k),
        q,
    ) == find_raw(db0.table_at(k), q) by {
        lemma_raw_key_filter(db0.table_at(k), db1.table_at(k), ds, k, q);
    }
}

proof fn lemma_counts_partition(t0: Seq<TagRecord>, tags: Seq<TagRecord>)
    ensures
        count_classified(t0, tags, TagAction::Insert) + count_classified(
            t0,
            tags,
            TagAction::Update,
        ) + count_classified(t0, tags, TagAction::Skip) == tags.len(),
    decreases tags.len(),
{
    reveal(Seq::filter);
    if tags.len() > 0 {
        lemma_counts_partition(t0, tags.drop_last());
    }
}

} // verus!

