use crate::error::Error;
use crate::registry::{ErrorObserver, Locales};
use crate::store::{contains_text, texts_load, texts_view};
use crate::tag::{canonical_langid, LanguageTag};
use fluent_syntax::ast::Entry;
use vstd::prelude::*;

verus! {

/// For each entry of the resource text `text`, the id of a message or a
/// term, `None` for a comment; `None` as a whole where `text` has syntax errors.
pub uninterp spec fn resource_entries(text: Seq<char>) -> Option<Seq<Option<Seq<char>>>>;

pub open spec fn entries_view(v: Seq<Option<String>>) -> Seq<Option<Seq<char>>> {
    v.map_values(|e: Option<String>| match e {
        Some(s) => Some(s@),
        None => None,
    })
}

/// Relies on `fluent_syntax::parser::parse`: the entries of a resource text.
#[verifier::external_body]
fn parse_entries(text: &str) -> (r: Option<Vec<Option<String>>>)
    ensures
        r matches Some(v) ==> resource_entries(text@) == Some(entries_view(v@)),
        r is None ==> resource_entries(text@) is None,
{
    fluent_syntax::parser::parse(text).ok().map(|res| res.body.into_iter().map(|e| match e {
        Entry::Message(m) => Some(m.id.name.to_string()),
        Entry::Term(t) => Some(t.id.name.to_string()),
        Entry::Comment(_) | Entry::GroupComment(_) | Entry::ResourceComment(_) | Entry::Junk { .. } => None,
    }).collect())
}

/// The ids among `entries`, in order.
pub open spec fn present_ids(entries: Seq<Option<Seq<char>>>) -> Seq<Seq<char>>
    decreases entries.len(),
{
    if entries.len() == 0 {
        Seq::empty()
    } else {
        present_ids(entries.drop_last()) + match entries.last() {
            Some(id) => seq![id],
            None => Seq::empty(),
        }
    }
}

/// The ids of the messages and terms that the resource text `text` defines,
/// in order; `None` where it has syntax errors.
pub open spec fn defined_ids(text: Seq<char>) -> Option<Seq<Seq<char>>> {
    match resource_entries(text) {
        Some(entries) => Some(present_ids(entries)),
        None => None,
    }
}

/// The ids of the messages and terms that `text` defines.
pub fn resource_keys(text: &str) -> (r: Option<Vec<String>>)
    ensures
        r matches Some(v) ==> defined_ids(text@) == Some(texts_view(v@)),
        r is None ==> defined_ids(text@) is None,
{
    let entries = match parse_entries(text) {
        Some(entries) => entries,
        None => {
            return None;
        },
    };
    let ghost ev = entries_view(entries@);
    let mut ids: Vec<String> = Vec::new();
    let mut i: usize = 0;
    while i < entries.len()
        invariant
            ev == entries_view(entries@),
            i <= entries@.len(),
            texts_view(ids@) == present_ids(ev.take(i as int)),
        decreases entries@.len() - i,
    {
        proof {
            assert(ev.take(i + 1).drop_last() =~= ev.take(i as int));
        }
        match &entries[i] {
            Some(id) => {
                ids.push(id.clone());
                proof {
                    assert(texts_view(ids@) =~= present_ids(ev.take(i + 1)));
                }
            },
            None => {
                proof {
                    assert(texts_view(ids@) =~= present_ids(ev.take(i + 1)));
                }
            },
        }
        i = i + 1;
    }
    proof {
        assert(ev.take(entries@.len() as int) =~= ev);
    }
    Some(ids)
}

pub open spec fn sets_view(v: Seq<(String, Vec<String>)>) -> Seq<(Seq<char>, Seq<Seq<char>>)> {
    v.map_values(|p: (String, Vec<String>)| (p.0@, texts_view(p.1@)))
}

/// Whether key `k` is missing from set `i` of `sets`: set `i` lacks it, and
/// another set of the same file name defines it.
pub open spec fn is_missing(sets: Seq<(Seq<char>, Seq<Seq<char>>)>, i: int, k: Seq<char>) -> bool {
    &&& !sets[i].1.contains(k)
    &&& exists|j: int| 0 <= j < sets.len() && (#[trigger] sets[j]).0 == sets[i].0 && sets[j].1.contains(k)
}

/// Whether `k` is missing from set `i`, looking only at sets before `j`, and
/// at the first `m` keys of set `j`.
pub open spec fn missing_so_far(sets: Seq<(Seq<char>, Seq<Seq<char>>)>, i: int, j: int, m: int, k: Seq<char>) -> bool {
    &&& !sets[i].1.contains(k)
    &&& ((exists|j2: int| 0 <= j2 < j && (#[trigger] sets[j2]).0 == sets[i].0 && sets[j2].1.contains(k))
        || (sets[j].0 == sets[i].0 && sets[j].1.take(m).contains(k)))
}

proof fn lemma_push_contains(s: Seq<Seq<char>>, x: Seq<char>, k: Seq<char>)
    ensures
        s.push(x).contains(k) <==> (s.contains(k) || k == x),
{
    if s.contains(k) {
        let a = choose|a: int| 0 <= a < s.len() && #[trigger] s[a] == k;
        assert(s.push(x)[a] == k);
    }
    if k == x {
        assert(s.push(x)[s.len() as int] == k);
    }
    if s.push(x).contains(k) && k != x {
        let a = choose|a: int| 0 <= a < s.len() + 1 && #[trigger] s.push(x)[a] == k;
        assert(s[a] == k);
    }
}

/// Looking at one more key of set `j` adds exactly that key, where it is missing.
proof fn lemma_missing_step(sets: Seq<(Seq<char>, Seq<Seq<char>>)>, i: int, j: int, m: int, key: Seq<char>)
    requires
        0 <= m < sets[j].1.len(),
        sets[j].1.take(m + 1) == sets[j].1.take(m).push(key),
    ensures
        forall|k: Seq<char>| missing_so_far(sets, i, j, m + 1, k) <==> (missing_so_far(sets, i, j, m, k)
            || (k == key && !sets[i].1.contains(k) && sets[j].0 == sets[i].0)),
{
    assert forall|k: Seq<char>| missing_so_far(sets, i, j, m + 1, k) <==> (missing_so_far(sets, i, j, m, k)
        || (k == key && !sets[i].1.contains(k) && sets[j].0 == sets[i].0)) by {
        lemma_push_contains(sets[j].1.take(m), key, k);
    }
}

/// Whether no text occurs twice in `v`.
pub open spec fn distinct_texts(v: Seq<Seq<char>>) -> bool {
    forall|a: int, b: int| 0 <= a < b < v.len() ==> v[a] != v[b]
}

/// The keys that set `i` lacks and another set of the same file name
/// defines, each once. A set is a file name with the keys that a locale's
/// file of that name defines.
pub fn missing_keys(sets: &Vec<(String, Vec<String>)>, i: usize) -> (r: Vec<String>)
    requires
        i < sets@.len(),
    ensures
        forall|k: Seq<char>| texts_view(r@).contains(k) <==> is_missing(sets_view(sets@), i as int, k),
        distinct_texts(texts_view(r@)),
{
    let ghost sv = sets_view(sets@);
    let mut r: Vec<String> = Vec::new();
    let mut j: usize = 0;
    while j < sets.len()
        invariant
            sv == sets_view(sets@),
            i < sets@.len(),
            j <= sets@.len(),
            distinct_texts(texts_view(r@)),
            forall|k: Seq<char>| texts_view(r@).contains(k) <==> (!sv[i as int].1.contains(k)
                && exists|j2: int| 0 <= j2 < j && (#[trigger] sv[j2]).0 == sv[i as int].0 && sv[j2].1.contains(k)),
        decreases sets@.len() - j,
    {
        let same = sets[j].0.eq(&sets[i].0);
        let keys = &sets[j].1;
        let mut m: usize = 0;
        proof {
            assert(sv[j as int].0 == sets@[j as int].0@);
            assert(sv[j as int].1 == texts_view(keys@));
            assert(sv[i as int].1 == texts_view(sets@[i as int].1@));
            assert(sv[j as int].1.take(0) =~= Seq::<Seq<char>>::empty());
        }
        while m < keys.len()
            invariant
                sv == sets_view(sets@),
                i < sets@.len(),
                j < sets@.len(),
                keys == &sets@[j as int].1,
                sv[j as int].1 == texts_view(keys@),
                sv[i as int].1 == texts_view(sets@[i as int].1@),
                same == (sv[j as int].0 == sv[i as int].0),
                m <= keys@.len(),
                distinct_texts(texts_view(r@)),
                forall|k: Seq<char>| texts_view(r@).contains(k) <==> missing_so_far(sv, i as int, j as int, m as int, k),
            decreases keys@.len() - m,
        {
            let key = &keys[m];
            proof {
                assert(sv[j as int].1.take(m + 1) =~= sv[j as int].1.take(m as int).push(key@));
                lemma_missing_step(sv, i as int, j as int, m as int, key@);
            }
            let in_own = contains_text(&sets[i].1, key);
            let seen = contains_text(&r, key);
            if same && !in_own && !seen {
                let ghost before = texts_view(r@);
                proof {
                    assert(forall|k: Seq<char>| before.contains(k) <==> missing_so_far(sv, i as int, j as int, m as int, k));
                }
                r.push(key.clone());
                proof {
                    assert(texts_view(r@) =~= before.push(key@));
                    assert forall|k: Seq<char>| texts_view(r@).contains(k) <==> (before.contains(k) || k == key@) by {
                        lemma_push_contains(before, key@, k);
                    }
                    assert forall|a: int, b: int| 0 <= a < b < texts_view(r@).len() implies texts_view(r@)[a] != texts_view(r@)[b] by {
                        if b == before.len() {
                            assert(before[a] == texts_view(r@)[a]);
                        } else {
                            assert(before[a] == texts_view(r@)[a]);
                            assert(before[b] == texts_view(r@)[b]);
                        }
                    }
                    assert forall|k: Seq<char>| texts_view(r@).contains(k) <==> missing_so_far(sv, i as int, j as int, m + 1, k) by {
                        if k == key@ {
                            assert(missing_so_far(sv, i as int, j as int, m + 1, k));
                        } else {
                            assert(texts_view(r@).contains(k) == before.contains(k));
                            assert(before.contains(k) == missing_so_far(sv, i as int, j as int, m as int, k));
                            assert(missing_so_far(sv, i as int, j as int, m as int, k) == missing_so_far(sv, i as int, j as int, m + 1, k));
                        }
                    }
                }
            } else {
                proof {
                    assert forall|k: Seq<char>| texts_view(r@).contains(k) <==> missing_so_far(sv, i as int, j as int, m + 1, k) by {
                        if k == key@ && same && !in_own {
                            assert(seen);
                            assert(missing_so_far(sv, i as int, j as int, m as int, k));
                        }
                    }
                }
            }
            m = m + 1;
        }
        proof {
            assert(sv[j as int].1.take(keys@.len() as int) =~= sv[j as int].1);
            assert forall|k: Seq<char>| texts_view(r@).contains(k) <==> (!sv[i as int].1.contains(k)
                && exists|j2: int| 0 <= j2 < j + 1 && (#[trigger] sv[j2]).0 == sv[i as int].0 && sv[j2].1.contains(k)) by {
                if missing_so_far(sv, i as int, j as int, keys@.len() as int, k) {
                    if sv[j as int].0 == sv[i as int].0 && sv[j as int].1.contains(k) {
                        assert(0 <= j < j + 1 && sv[j as int].0 == sv[i as int].0 && sv[j as int].1.contains(k));
                    } else {
                        let j2 = choose|j2: int| 0 <= j2 < j && (#[trigger] sv[j2]).0 == sv[i as int].0 && sv[j2].1.contains(k);
                        assert(0 <= j2 < j + 1);
                    }
                }
                if (!sv[i as int].1.contains(k) && exists|j2: int| 0 <= j2 < j + 1 && (#[trigger] sv[j2]).0 == sv[i as int].0 && sv[j2].1.contains(k)) {
                    let j2 = choose|j2: int| 0 <= j2 < j + 1 && (#[trigger] sv[j2]).0 == sv[i as int].0 && sv[j2].1.contains(k);
                    if j2 < j {
                        assert(missing_so_far(sv, i as int, j as int, keys@.len() as int, k));
                    }
                }
            }
        }
        j = j + 1;
    }
    r
}

/// A resource file of one locale, as read from disk.
pub struct SourceFile {
    pub locale: String,
    pub file_name: String,
    pub content: String,
}

/// A reason why a set of resource files does not load.
#[derive(Debug, Clone, PartialEq, Eq)]
pub enum LoadIssue {
    /// The file has syntax errors.
    Unparsable { locale: String, file_name: String },
    /// The file lacks keys that the same-named file of another locale defines.
    MissingKeys { locale: String, file_name: String, missing: Vec<String> },
    /// The locale's files could not be loaded.
    Rejected { locale: String, errors: Vec<Error> },
    /// A set of definitions is not a JSON object of strings.
    InvalidFormat,
}

/// Each file's name with the ids that its content defines (none where it
/// does not parse).
pub open spec fn file_key_sets(files: Seq<SourceFile>) -> Seq<(Seq<char>, Seq<Seq<char>>)> {
    files.map_values(|f: SourceFile| (f.file_name@, match defined_ids(f.content@) {
        Some(ids) => ids,
        None => Seq::empty(),
    }))
}

/// Whether some file does not parse.
pub open spec fn some_unparsable(files: Seq<SourceFile>) -> bool {
    exists|i: int| 0 <= i < files.len() && defined_ids((#[trigger] files[i]).content@) is None
}

/// Whether some file lacks a key of a same-named file of another locale.
pub open spec fn some_missing_keys(files: Seq<SourceFile>) -> bool {
    exists|i: int, k: Seq<char>| 0 <= i < files.len() && #[trigger] is_missing(file_key_sets(files), i, k)
}

/// The contents of the files of `files` whose locale name is `locale`, in order.
pub open spec fn group_texts(files: Seq<SourceFile>, locale: Seq<char>) -> Seq<Seq<char>>
    decreases files.len(),
{
    if files.len() == 0 {
        Seq::empty()
    } else {
        group_texts(files.drop_last(), locale) + if files.last().locale@ == locale {
            seq![files.last().content@]
        } else {
            Seq::empty()
        }
    }
}

/// Whether every file whose locale name means the same language as that of
/// file `i` has the very same locale name.
pub open spec fn unique_tag(files: Seq<SourceFile>, i: int) -> bool {
    forall|j: int| 0 <= j < files.len() && canonical_langid((#[trigger] files[j]).locale@) == canonical_langid(files[i].locale@)
        ==> files[j].locale@ == files[i].locale@
}

/// Whether the locale of file `i` loads: its name is a valid tag, and the
/// contents of its files merge into a store.
pub open spec fn group_loads(files: Seq<SourceFile>, i: int) -> bool {
    canonical_langid(files[i].locale@) is Some && texts_load(group_texts(files, files[i].locale@))
}

/// Whether `files` load: each parses, no keys are missing where `check_keys`
/// asks, and each locale loads.
pub open spec fn files_load(files: Seq<SourceFile>, check_keys: bool) -> bool {
    &&& !some_unparsable(files)
    &&& !(check_keys && some_missing_keys(files))
    &&& forall|i: int| 0 <= i < files.len() ==> #[trigger] group_loads(files, i)
}

/// The locale and file name of each file before index `i` that does not parse, in order.
pub open spec fn unparsable_upto(files: Seq<SourceFile>, i: int) -> Seq<(Seq<char>, Seq<char>)>
    decreases i,
{
    if i <= 0 {
        Seq::empty()
    } else {
        unparsable_upto(files, i - 1) + if defined_ids(files[i - 1].content@) is None {
            seq![(files[i - 1].locale@, files[i - 1].file_name@)]
        } else {
            Seq::empty()
        }
    }
}

/// The locale and file name of each file before index `i` that lacks keys of
/// a same-named file of another locale, in order.
pub open spec fn missing_upto(files: Seq<SourceFile>, i: int) -> Seq<(Seq<char>, Seq<char>)>
    decreases i,
{
    if i <= 0 {
        Seq::empty()
    } else {
        missing_upto(files, i - 1) + if exists|k: Seq<char>| #[trigger] is_missing(file_key_sets(files), i - 1, k) {
            seq![(files[i - 1].locale@, files[i - 1].file_name@)]
        } else {
            Seq::empty()
        }
    }
}

/// The locale and file name of each `Unparsable` issue of `e`, in order.
pub open spec fn unparsable_issues(e: Seq<LoadIssue>) -> Seq<(Seq<char>, Seq<char>)>
    decreases e.len(),
{
    if e.len() == 0 {
        Seq::empty()
    } else {
        unparsable_issues(e.drop_last()) + match e.last() {
            LoadIssue::Unparsable { locale, file_name } => seq![(locale@, file_name@)],
            _ => Seq::empty(),
        }
    }
}

/// The locale and file name of each `MissingKeys` issue of `e`, in order.
pub open spec fn missing_issues(e: Seq<LoadIssue>) -> Seq<(Seq<char>, Seq<char>)>
    decreases e.len(),
{
    if e.len() == 0 {
        Seq::empty()
    } else {
        missing_issues(e.drop_last()) + match e.last() {
            LoadIssue::MissingKeys { locale, file_name, missing: _ } => seq![(locale@, file_name@)],
            _ => Seq::empty(),
        }
    }
}

proof fn lemma_unparsable_none(files: Seq<SourceFile>, i: int)
    requires
        0 <= i <= files.len(),
        forall|j: int| 0 <= j < i ==> defined_ids((#[trigger] files[j]).content@) is Some,
    ensures
        unparsable_upto(files, i).len() == 0,
    decreases i,
{
    if i > 0 {
        lemma_unparsable_none(files, i - 1);
    }
}

proof fn lemma_missing_none(files: Seq<SourceFile>, i: int)
    requires
        0 <= i <= files.len(),
        forall|j: int, k: Seq<char>| 0 <= j < i ==> !#[trigger] is_missing(file_key_sets(files), j, k),
    ensures
        missing_upto(files, i).len() == 0,
    decreases i,
{
    if i > 0 {
        lemma_missing_none(files, i - 1);
    }
}

/// Whether `reg` has a locale for the language of file `i`, holding the
/// contents of that locale's files in order, unless another locale name
/// means the same language.
pub open spec fn holds_group<O: ErrorObserver>(reg: Locales<O>, files: Seq<SourceFile>, i: int) -> bool {
    canonical_langid(files[i].locale@) matches Some(t) && (reg.lookup(t) matches Some(s) && s.locale() == t
        && (unique_tag(files, i) ==> s.sources() == group_texts(files, files[i].locale@)))
}

/// Whether every language with a locale in `reg` is that of some file.
pub open spec fn only_file_tags<O: ErrorObserver>(reg: Locales<O>, files: Seq<SourceFile>) -> bool {
    forall|t: Seq<char>| reg.lookup(t) is Some ==> exists|i: int| 0 <= i < files.len() && canonical_langid((#[trigger] files[i]).locale@) == Some(t)
}

/// Builds a collection with one locale per locale name of `files`, over the
/// contents of that locale's files in order. Fails where a file does not
/// parse, where `check_keys` is set and a file lacks keys that the file of
/// the same name of another locale defines, or where a locale does not load.
pub fn load_locales<O: ErrorObserver>(files: Vec<SourceFile>, fallback_lang: LanguageTag, on_error: Option<O>, check_keys: bool) -> (r: Result<Locales<O>, Vec<LoadIssue>>)
    ensures
        r is Ok <==> files_load(files@, check_keys),
        r matches Ok(reg) ==> reg.wf() && reg.fallback() == fallback_lang@ && reg.observer() == on_error
            && only_file_tags(reg, files@)
            && forall|i: int| 0 <= i < files@.len() ==> #[trigger] holds_group(reg, files@, i),
        r matches Err(e) ==> e@.len() > 0 && unparsable_issues(e@) == unparsable_upto(files@, files@.len() as int)
            && missing_issues(e@) == if check_keys {
                missing_upto(files@, files@.len() as int)
            } else {
                Seq::empty()
            },
{
    let n = files.len();
    let mut issues: Vec<LoadIssue> = Vec::new();
    let mut sets: Vec<(String, Vec<String>)> = Vec::new();
    let mut i: usize = 0;
    while i < n
        invariant
            n == files@.len(),
            i <= n,
            sets_view(sets@) == file_key_sets(files@).take(i as int),
            sets@.len() == i,
            (exists|j: int| 0 <= j < i && defined_ids((#[trigger] files@[j]).content@) is None) <==> issues@.len() > 0,
            unparsable_issues(issues@) == unparsable_upto(files@, i as int),
            missing_issues(issues@).len() == 0,
        decreases n - i,
    {
        let f = &files[i];
        let ghost prev = sets@;
        let ghost issues_before = issues@;
        match resource_keys(f.content.as_str()) {
            Some(ids) => {
                sets.push((f.file_name.clone(), ids));
            },
            None => {
                issues.push(LoadIssue::Unparsable { locale: f.locale.clone(), file_name: f.file_name.clone() });
                sets.push((f.file_name.clone(), Vec::new()));
                proof {
                    assert(issues@.drop_last() =~= issues_before);
                    assert(texts_view(Seq::<String>::empty()) =~= Seq::<Seq<char>>::empty());
                }
            },
        }
        proof {
            assert(unparsable_issues(issues@) =~= unparsable_upto(files@, i + 1));
            assert(sets@ =~= prev.push(sets@.last()));
            assert(sets_view(sets@)[i as int] == file_key_sets(files@)[i as int]);
            assert forall|x: int| 0 <= x < i implies #[trigger] sets_view(sets@)[x] == file_key_sets(files@).take(i + 1)[x] by {
                assert(sets_view(prev)[x] == file_key_sets(files@).take(i as int)[x]);
                assert(sets@[x] == prev[x]);
            }
            assert(sets_view(sets@) =~= file_key_sets(files@).take(i + 1));
        }
        i = i + 1;
    }
    proof {
        assert(file_key_sets(files@).take(n as int) =~= file_key_sets(files@));
    }
    if check_keys {
        let mut i: usize = 0;
        while i < n
            invariant
                n == files@.len(),
                n == sets@.len(),
                i <= n,
                check_keys,
                sets_view(sets@) == file_key_sets(files@),
                issues@.len() > 0 <==> (some_unparsable(files@)
                    || exists|j: int, k: Seq<char>| 0 <= j < i && #[trigger] is_missing(file_key_sets(files@), j, k)),
                unparsable_issues(issues@) == unparsable_upto(files@, n as int),
                missing_issues(issues@) == missing_upto(files@, i as int),
            decreases n - i,
        {
            let ghost issues_before = issues@;
            let missing = missing_keys(&sets, i);
            if missing.len() > 0 {
                issues.push(LoadIssue::MissingKeys { locale: files[i].locale.clone(), file_name: files[i].file_name.clone(), missing });
                proof {
                    assert(texts_view(missing@).contains(texts_view(missing@)[0]));
                    assert(is_missing(file_key_sets(files@), i as int, texts_view(missing@)[0]));
                    assert(issues@.drop_last() =~= issues_before);
                    assert(missing_issues(issues@) =~= missing_upto(files@, i + 1));
                }
            } else {
                proof {
                    assert forall|k: Seq<char>| !is_missing(file_key_sets(files@), i as int, k) by {
                        if is_missing(file_key_sets(files@), i as int, k) {
                            assert(texts_view(missing@).contains(k));
                        }
                    }
                    assert(missing_issues(issues@) =~= missing_upto(files@, i + 1));
                }
            }
            i = i + 1;
        }
    }
    if issues.len() > 0 {
        return Err(issues);
    }
    let ghost obs = on_error;
    let mut reg: Locales<O> = Locales::new(fallback_lang, on_error);
    let ghost fallback = reg.fallback();
    let ghost fs = files@;
    let mut i: usize = 0;
    while i < n
        invariant
            n == files@.len(),
            fs == files@,
            i <= n,
            reg.wf(),
            reg.fallback() == fallback,
            reg.observer() == obs,
            unparsable_issues(issues@).len() == 0,
            missing_issues(issues@).len() == 0,
            !some_unparsable(fs),
            !(check_keys && some_missing_keys(fs)),
            issues@.len() == 0 <==> forall|j: int| 0 <= j < i ==> #[trigger] group_loads(fs, j),
            issues@.len() == 0 ==> forall|j: int| 0 <= j < i ==> #[trigger] holds_group(reg, fs, j),
            issues@.len() == 0 ==> forall|t: Seq<char>| reg.lookup(t) is Some ==> exists|j: int| 0 <= j < i && canonical_langid((#[trigger] fs[j]).locale@) == Some(t),
        decreases n - i,
    {
        let locale = &files[i].locale;
        let ghost issues_before = issues@;
        if !seen_before(&files, i) {
            let ghost before = reg;
            match LanguageTag::parse(locale.as_str()) {
                None => {
                    let mut errors: Vec<Error> = Vec::new();
                    errors.push(Error::InvalidLanguageTag { tag: locale.clone() });
                    issues.push(LoadIssue::Rejected { locale: locale.clone(), errors });
                    proof {
                        assert(issues@.drop_last() =~= issues_before);
                        assert(!group_loads(fs, i as int));
                    }
                },
                Some(_) => {
                    let texts = contents_of(&files, locale);
                    match reg.add_locale(locale.as_str(), texts) {
                        Ok(()) => {
                            proof {
                                assert(group_loads(fs, i as int));
                                let t = canonical_langid(locale@).unwrap();
                                if issues@.len() == 0 {
                                    assert forall|j: int| 0 <= j < i + 1 implies #[trigger] holds_group(reg, fs, j) by {
                                        if j < i {
                                            assert(holds_group(before, fs, j));
                                            let u = canonical_langid(fs[j].locale@).unwrap();
                                            if u == t {
                                                assert(fs[j].locale@ != locale@);
                                                assert(!unique_tag(fs, j)) by {
                                                    assert(canonical_langid(fs[i as int].locale@) == canonical_langid(fs[j].locale@));
                                                }
                                            } else {
                                                assert(reg.lookup(u) == before.lookup(u));
                                            }
                                        }
                                    }
                                    assert forall|u: Seq<char>| reg.lookup(u) is Some implies exists|j: int| 0 <= j < i + 1 && canonical_langid((#[trigger] fs[j]).locale@) == Some(u) by {
                                        if u != t {
                                            assert(reg.lookup(u) == before.lookup(u));
                                        } else {
                                            assert(canonical_langid(fs[i as int].locale@) == Some(u));
                                        }
                                    }
                                }
                            }
                        },
                        Err(e) => {
                            issues.push(LoadIssue::Rejected { locale: locale.clone(), errors: e });
                            proof {
                                assert(issues@.drop_last() =~= issues_before);
                                assert(!group_loads(fs, i as int));
                            }
                        },
                    }
                },
            }
        } else {
            proof {
                let j = choose|j: int| 0 <= j < i && (#[trigger] files@[j]).locale@ == locale@;
                assert(group_loads(fs, j) == group_loads(fs, i as int));
                assert(unique_tag(fs, j) == unique_tag(fs, i as int));
                if issues@.len() == 0 {
                    assert(holds_group(reg, fs, j));
                }
            }
        }
        i = i + 1;
    }
    if issues.len() > 0 {
        proof {
            lemma_unparsable_none(fs, n as int);
            if check_keys {
                lemma_missing_none(fs, n as int);
            }
        }
        return Err(issues);
    }
    Ok(reg)
}

/// Whether a file before index `i` has the locale name of file `i`.
fn seen_before(files: &Vec<SourceFile>, i: usize) -> (r: bool)
    requires
        i < files@.len(),
    ensures
        r == exists|j: int| 0 <= j < i && (#[trigger] files@[j]).locale@ == files@[i as int].locale@,
{
    let mut j: usize = 0;
    while j < i
        invariant
            i < files@.len(),
            j <= i,
            forall|x: int| 0 <= x < j ==> (#[trigger] files@[x]).locale@ != files@[i as int].locale@,
        decreases i - j,
    {
        if files[j].locale.eq(&files[i].locale) {
            return true;
        }
        j = j + 1;
    }
    false
}

/// The contents of the files whose locale name is `locale`, in order.
fn contents_of(files: &Vec<SourceFile>, locale: &String) -> (r: Vec<String>)
    ensures
        texts_view(r@) == group_texts(files@, locale@),
{
    let mut r: Vec<String> = Vec::new();
    let mut j: usize = 0;
    while j < files.len()
        invariant
            j <= files@.len(),
            texts_view(r@) == group_texts(files@.take(j as int), locale@),
        decreases files@.len() - j,
    {
        proof {
            assert(files@.take(j + 1).drop_last() =~= files@.take(j as int));
            assert(files@.take(j + 1).last() == files@[j as int]);
        }
        let ghost before = r@;
        if files[j].locale.eq(locale) {
            r.push(files[j].content.clone());
            proof {
                assert(texts_view(r@) =~= texts_view(before).push(files@[j as int].content@));
            }
        }
        j = j + 1;
    }
    proof {
        assert(files@.take(files@.len() as int) =~= files@);
    }
    r
}

} // verus!
