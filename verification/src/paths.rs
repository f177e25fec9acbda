//! Luciole data directory layout: everything lives under `~/.luciole/`.
//!
//! Paths are Unix paths held as strings. `join_path` is `PathBuf::push`, and
//! `path_starts_with` is `Path::starts_with`, which compares whole
//! components.

use vstd::prelude::*;
use vstd::string::*;
use crate::text::{split_on, split_chars, to_chars, string_from_range, same_text, views, owned};

verus! {

/// `base` with `seg` pushed onto it, as `PathBuf::push` does on Unix: an
/// absolute `seg` replaces `base`; otherwise a `/` is put between them unless
/// `base` is empty or already ends with one.
pub open spec fn path_join(base: Seq<char>, seg: Seq<char>) -> Seq<char> {
    if seg.len() > 0 && seg[0] == '/' {
        seg
    } else if base.len() == 0 || base.last() == '/' {
        base + seg
    } else {
        base + seq!['/'] + seg
    }
}

/// `PathBuf::from(base).join(seg)`.
pub fn join_path(base: &str, seg: &str) -> (r: String)
    ensures
        r@ == path_join(base@, seg@),
{
    let vb = to_chars(base);
    let vs = to_chars(seg);
    if vs.len() > 0 && vs[0] == '/' {
        return owned(seg);
    }
    let mut r = owned(base);
    if vb.len() > 0 && vb[vb.len() - 1] != '/' {
        crate::text::push_char(&mut r, '/');
    }
    r.append(seg);
    r
}

/// The single-character component that stands for the root directory.
pub open spec fn root_component() -> Seq<char> {
    seq!['/']
}

/// The component `.`.
pub open spec fn cur_component() -> Seq<char> {
    seq!['.']
}

/// Keeps the segments that name a component: empty segments (repeated or
/// trailing separators) and `.` are dropped.
pub open spec fn kept_segments(segs: Seq<Seq<char>>) -> Seq<Seq<char>>
    decreases segs.len(),
{
    if segs.len() == 0 {
        Seq::empty()
    } else {
        let p = kept_segments(segs.drop_last());
        let x = segs.last();
        if x.len() == 0 || x == cur_component() {
            p
        } else {
            p.push(x)
        }
    }
}

/// The components of a Unix path as `Path::components` yields them, each
/// written as text: the root directory is `/`, a leading current directory
/// is `.`, a parent directory is `..`, any other component is its name. No
/// name contains `/` or equals `.` or `..`, so this writing loses nothing.
pub open spec fn path_components(s: Seq<char>) -> Seq<Seq<char>> {
    if s.len() > 0 && s[0] == '/' {
        seq![root_component()] + kept_segments(split_on(s.drop_first(), '/'))
    } else {
        let segs = split_on(s, '/');
        if segs[0] == cur_component() {
            seq![cur_component()] + kept_segments(segs.drop_first())
        } else {
            kept_segments(segs)
        }
    }
}

/// `Path::starts_with`: the components of `base` are a prefix of those of
/// `path`.
pub open spec fn path_starts_with_spec(path: Seq<char>, base: Seq<char>) -> bool {
    let p = path_components(path);
    let b = path_components(base);
    b.len() <= p.len() && p.take(b.len() as int) == b
}

fn kept(segs: Vec<String>, skip_first: bool, out: &mut Vec<String>)
    requires
        skip_first ==> segs@.len() >= 1,
    ensures
        views(final(out)@) == views(old(out)@) + kept_segments(
            if skip_first {
                views(segs@).drop_first()
            } else {
                views(segs@)
            },
        ),
{
    let ghost base = views(out@);
    let ghost all = if skip_first {
        views(segs@).drop_first()
    } else {
        views(segs@)
    };
    let start: usize = if skip_first {
        1
    } else {
        0
    };
    let mut i: usize = start;
    assert(all.take(0) == Seq::<Seq<char>>::empty());
    assert(base + Seq::<Seq<char>>::empty() == base);
    while i < segs.len()
        invariant
            start <= i <= segs@.len(),
            start == (if skip_first {
                1nat
            } else {
                0nat
            }),
            all == (if skip_first {
                views(segs@).drop_first()
            } else {
                views(segs@)
            }),
            views(out@) == base + kept_segments(all.take(i - start)),
        decreases segs.len() - i,
    {
        let x = &segs[i];
        let ghost prev = kept_segments(all.take(i - start));
        assert(all.take(i + 1 - start).drop_last() == all.take(i - start));
        assert(all.take(i + 1 - start).last() == x@);
        let xv = to_chars(x.as_str());
        if xv.len() == 0 || (xv.len() == 1 && xv[0] == '.') {
            proof {
                if xv.len() == 1 {
                    assert(x@ == cur_component());
                }
            }
        } else {
            proof {
                if x@ == cur_component() {
                    assert(xv@.len() == 1);
                }
            }
            let ghost before = out@;
            out.push(x.clone());
            proof {
                crate::text::lemma_views_push(before, out@[out@.len() - 1]);
            }
            assert(out@ == before.push(out@[out@.len() - 1]));
            assert(views(out@) == base + prev.push(x@));
        }
        i = i + 1;
    }
    assert(all.take(segs@.len() - start) == all);
}

/// `Path::components`, each component written as text (see
/// `path_components`).
pub fn components(s: &str) -> (r: Vec<String>)
    ensures
        views(r@) == path_components(s@),
{
    let v = to_chars(s);
    let mut out: Vec<String> = Vec::new();
    if v.len() > 0 && v[0] == '/' {
        let rest = string_from_range(&v, 1, v.len());
        assert(rest@ == s@.drop_first());
        let mut root = String::new();
        crate::text::push_char(&mut root, '/');
        out.push(root);
        assert(views(out@) == seq![root_component()]);
        let segs = split_chars(rest.as_str(), '/');
        kept(segs, false, &mut out);
    } else {
        let segs = split_chars(s, '/');
        proof {
            crate::text::lemma_split_on_nonempty(s@, '/');
        }
        let first = to_chars(segs[0].as_str());
        if first.len() == 1 && first[0] == '.' {
            let mut cur = String::new();
            crate::text::push_char(&mut cur, '.');
            out.push(cur);
            assert(views(out@) == seq![cur_component()]);
            assert(segs@[0]@ == cur_component());
            kept(segs, true, &mut out);
        } else {
            proof {
                if views(segs@)[0] == cur_component() {
                    assert(first@.len() == 1);
                }
            }
            kept(segs, false, &mut out);
            assert(views(out@) == Seq::<Seq<char>>::empty() + kept_segments(views(segs@)));
        }
    }
    out
}

/// `Path::new(path).starts_with(base)`.
pub fn path_starts_with(path: &str, base: &str) -> (r: bool)
    ensures
        r == path_starts_with_spec(path@, base@),
{
    let p = components(path);
    let b = components(base);
    if b.len() > p.len() {
        return false;
    }
    let mut i: usize = 0;
    while i < b.len()
        invariant
            views(p@) == path_components(path@),
            views(b@) == path_components(base@),
            b@.len() <= p@.len(),
            i <= b@.len(),
            forall|k: int| 0 <= k < i ==> views(p@)[k] == views(b@)[k],
        decreases b.len() - i,
    {
        assert(views(p@)[i as int] == p@[i as int]@);
        assert(views(b@)[i as int] == b@[i as int]@);
        if !same_text(p[i].as_str(), b[i].as_str()) {
            assert(views(p@).take(b@.len() as int)[i as int] != views(b@)[i as int]);
            return false;
        }
        i = i + 1;
    }
    assert(views(p@).take(b@.len() as int) == views(b@));
    true
}

/// The user's home directory as `directories::BaseDirs` finds it (`$HOME`,
/// or the password database when `$HOME` is unset or empty), as text. It
/// depends on the environment, so nothing is claimed of which directory
/// comes back; the crate's Unix source (`dirs-sys`) turns an empty `$HOME`
/// and an empty password-database entry into `None`, so it is never empty.
#[verifier::external_body]
pub(crate) fn home_dir() -> (r: Option<String>)
    ensures
        r matches Some(h) ==> h@.len() > 0,
{
    match directories::BaseDirs::new() {
        Some(d) => Some(d.home_dir().to_string_lossy().into_owned()),
        None => None,
    }
}

/// The Luciole data directory for a given home directory: `<home>/.luciole`.
pub open spec fn data_root(home: Seq<char>) -> Seq<char> {
    path_join(home, ".luciole"@)
}

/// The path `leaf` inside the data directory of `home`.
pub open spec fn data_path(home: Seq<char>, leaf: Seq<char>) -> Seq<char> {
    path_join(data_root(home), leaf)
}

/// `<home>/.luciole` for the given home directory.
pub fn root_in(home: &str) -> (r: String)
    ensures
        r@ == data_root(home@),
{
    join_path(home, ".luciole")
}

/// The data directory, `~/.luciole`: `root_in` applied to the home
/// directory found, `None` when none is found. Whether one is found, and
/// which, depends on the environment.
pub fn root() -> (r: Option<String>)
    ensures
        r matches Some(p) ==> exists|h: Seq<char>| h.len() > 0 && p@ == data_root(h),
{
    match home_dir() {
        Some(h) => Some(root_in(h.as_str())),
        None => None,
    }
}

/// `<home>/.luciole/<leaf>` for the given home directory.
pub fn data_path_in(home: &str, leaf: &str) -> (r: String)
    ensures
        r@ == data_path(home@, leaf@),
{
    join_path(root_in(home).as_str(), leaf)
}

/// `~/.luciole/<leaf>`: `data_path_in` applied to the home directory found,
/// `None` when none is found. Whether one is found, and which, depends on
/// the environment.
fn under_root(leaf: &str) -> (r: Option<String>)
    ensures
        r matches Some(p) ==> exists|h: Seq<char>| h.len() > 0 && p@ == data_path(h, leaf@),
{
    match home_dir() {
        Some(h) => Some(data_path_in(h.as_str(), leaf)),
        None => None,
    }
}

/// `~/.luciole/notes`.
pub fn notes_dir() -> (r: Option<String>)
    ensures
        r matches Some(p) ==> exists|h: Seq<char>| h.len() > 0 && p@ == data_path(h, "notes"@),
{
    under_root("notes")
}

/// `~/.luciole/transcripts`.
pub fn transcripts_dir() -> (r: Option<String>)
    ensures
        r matches Some(p) ==> exists|h: Seq<char>|
            h.len() > 0 && p@ == data_path(h, "transcripts"@),
{
    under_root("transcripts")
}

/// `~/.luciole/models`.
pub fn models_dir() -> (r: Option<String>)
    ensures
        r matches Some(p) ==> exists|h: Seq<char>| h.len() > 0 && p@ == data_path(h, "models"@),
{
    under_root("models")
}

/// `~/.luciole/settings.json`.
pub fn settings_path() -> (r: Option<String>)
    ensures
        r matches Some(p) ==> exists|h: Seq<char>|
            h.len() > 0 && p@ == data_path(h, "settings.json"@),
{
    under_root("settings.json")
}

/// `~/.luciole/glossaire.yaml`.
pub fn glossary_path() -> (r: Option<String>)
    ensures
        r matches Some(p) ==> exists|h: Seq<char>|
            h.len() > 0 && p@ == data_path(h, "glossaire.yaml"@),
{
    under_root("glossaire.yaml")
}

/// `~/.luciole/db.sqlite`.
pub fn db_path() -> (r: Option<String>)
    ensures
        r matches Some(p) ==> exists|h: Seq<char>|
            h.len() > 0 && p@ == data_path(h, "db.sqlite"@),
{
    under_root("db.sqlite")
}

/// `~/.luciole/speakers.db`.
pub fn speakers_db_path() -> (r: Option<String>)
    ensures
        r matches Some(p) ==> exists|h: Seq<char>|
            h.len() > 0 && p@ == data_path(h, "speakers.db"@),
{
    under_root("speakers.db")
}

/// A name that makes one component of its own: not empty, without `/`, and
/// not `.`.
pub open spec fn is_component_name(name: Seq<char>) -> bool {
    &&& name.len() > 0
    &&& forall|i: int| 0 <= i < name.len() ==> name[i] != '/'
    &&& name != cur_component()
}

proof fn lemma_split_extend(a: Seq<char>, x: Seq<char>, sep: char)
    requires
        forall|i: int| 0 <= i < x.len() ==> x[i] != sep,
    ensures
        ({
            let p = split_on(a, sep);
            split_on(a + x, sep) == p.update(p.len() - 1, p.last() + x)
        }),
    decreases x.len(),
{
    crate::text::lemma_split_on_nonempty(a, sep);
    let p = split_on(a, sep);
    if x.len() == 0 {
        assert(a + x == a);
        assert(p.last() + x == p.last());
        assert(p.update(p.len() - 1, p.last()) == p);
    } else {
        let y = x.drop_last();
        lemma_split_extend(a, y, sep);
        assert((a + x).drop_last() == a + y);
        assert((a + x).last() == x.last());
        assert(x == y.push(x.last()));
        assert((p.last() + y).push(x.last()) =~= p.last() + x);
        let q = split_on(a + y, sep);
        assert(q.len() == p.len());
        assert(q.last() == p.last() + y);
        assert(q.update(q.len() - 1, q.last().push(x.last())) =~= p.update(
            p.len() - 1,
            p.last() + x,
        ));
    }
}

proof fn lemma_split_after_sep(a: Seq<char>, x: Seq<char>, sep: char)
    requires
        forall|i: int| 0 <= i < x.len() ==> x[i] != sep,
    ensures
        split_on(a + seq![sep] + x, sep) == split_on(a, sep).push(x),
        split_on(a + seq![sep], sep) == split_on(a, sep).push(Seq::empty()),
{
    let b = a + seq![sep];
    assert(b.drop_last() == a);
    assert(b.last() == sep);
    lemma_split_extend(b, x, sep);
    let p = split_on(a, sep).push(Seq::<char>::empty());
    assert(p.last() + x == x);
    assert(p.update(p.len() - 1, x) == split_on(a, sep).push(x));
}

proof fn lemma_kept_push(segs: Seq<Seq<char>>, x: Seq<char>)
    ensures
        is_component_name(x) ==> kept_segments(segs.push(x)) == kept_segments(segs).push(x),
        x.len() == 0 ==> kept_segments(segs.push(x)) == kept_segments(segs),
{
    assert(segs.push(x).drop_last() == segs);
    assert(segs.push(x).last() == x);
}

proof fn lemma_components_sep(a: Seq<char>, name: Seq<char>)
    requires
        is_component_name(name),
    ensures
        path_components(a + seq!['/'] + name) == path_components(a + seq!['/']).push(name),
{
    let b = a + seq!['/'];
    let j = b + name;
    if a.len() == 0 {
        assert(b == seq!['/']);
        assert(j.drop_first() == name);
        assert(b.drop_first() == Seq::<char>::empty());
        lemma_split_extend(Seq::<char>::empty(), name, '/');
        assert(Seq::<char>::empty() + name == name);
        assert(split_on(name, '/') == seq![name]);
        assert(kept_segments(seq![name]) == kept_segments(Seq::<Seq<char>>::empty()).push(name))
            by {
            lemma_kept_push(Seq::<Seq<char>>::empty(), name);
            assert(Seq::<Seq<char>>::empty().push(name) == seq![name]);
        }
        assert(kept_segments(seq![Seq::<char>::empty()]) == kept_segments(
            Seq::<Seq<char>>::empty(),
        )) by {
            lemma_kept_push(Seq::<Seq<char>>::empty(), Seq::<char>::empty());
            assert(Seq::<Seq<char>>::empty().push(Seq::<char>::empty()) == seq![
                Seq::<char>::empty(),
            ]);
        }
    } else if a[0] == '/' {
        let d = a.drop_first();
        assert(j.drop_first() == d + seq!['/'] + name);
        assert(b.drop_first() == d + seq!['/']);
        lemma_split_after_sep(d, name, '/');
        lemma_kept_push(split_on(d, '/'), name);
        lemma_kept_push(split_on(d, '/'), Seq::empty());
        assert(j[0] == '/' && b[0] == '/');
    } else {
        lemma_split_after_sep(a, name, '/');
        crate::text::lemma_split_on_nonempty(a, '/');
        let sa = split_on(a, '/');
        assert(j[0] == a[0] && b[0] == a[0]);
        assert(sa.push(name)[0] == sa[0]);
        assert(sa.push(Seq::<char>::empty())[0] == sa[0]);
        if sa[0] == cur_component() {
            assert(sa.push(name).drop_first() == sa.drop_first().push(name));
            assert(sa.push(Seq::<char>::empty()).drop_first() == sa.drop_first().push(
                Seq::<char>::empty(),
            ));
            lemma_kept_push(sa.drop_first(), name);
            lemma_kept_push(sa.drop_first(), Seq::empty());
        } else {
            lemma_kept_push(sa, name);
            lemma_kept_push(sa, Seq::empty());
        }
    }
}

proof fn lemma_components_trailing_sep(a: Seq<char>)
    requires
        a.len() > 0,
    ensures
        path_components(a + seq!['/']) == path_components(a),
{
    let b = a + seq!['/'];
    if a[0] == '/' {
        let d = a.drop_first();
        assert(b.drop_first() == d + seq!['/']);
        assert(b[0] == '/');
        lemma_split_after_sep(d, Seq::empty(), '/');
        lemma_kept_push(split_on(d, '/'), Seq::empty());
    } else {
        lemma_split_after_sep(a, Seq::empty(), '/');
        crate::text::lemma_split_on_nonempty(a, '/');
        let sa = split_on(a, '/');
        assert(b[0] == a[0]);
        assert(sa.push(Seq::<char>::empty())[0] == sa[0]);
        if sa[0] == cur_component() {
            assert(sa.push(Seq::<char>::empty()).drop_first() == sa.drop_first().push(
                Seq::<char>::empty(),
            ));
            lemma_kept_push(sa.drop_first(), Seq::empty());
        } else {
            lemma_kept_push(sa, Seq::empty());
        }
    }
}

/// Pushing a name onto a non-empty path adds exactly that name to its
/// components.
pub proof fn law_join_adds_component(base: Seq<char>, name: Seq<char>)
    requires
        base.len() > 0,
        is_component_name(name),
    ensures
        path_components(path_join(base, name)) == path_components(base).push(name),
{
    assert(name[0] != '/');
    if base.last() == '/' {
        let a = base.drop_last();
        assert(a + seq!['/'] == base);
        assert(path_join(base, name) == a + seq!['/'] + name);
        lemma_components_sep(a, name);
    } else {
        assert(path_join(base, name) == base + seq!['/'] + name);
        lemma_components_sep(base, name);
        lemma_components_trailing_sep(base);
    }
}

/// A file named inside a directory lies inside it, component by component.
pub proof fn law_joined_path_starts_with_base(base: Seq<char>, name: Seq<char>)
    requires
        base.len() > 0,
        is_component_name(name),
    ensures
        path_starts_with_spec(path_join(base, name), base),
{
    law_join_adds_component(base, name);
    let b = path_components(base);
    assert(b.push(name).take(b.len() as int) == b);
}

/// A path lies inside itself.
pub proof fn law_path_starts_with_itself(p: Seq<char>)
    ensures
        path_starts_with_spec(p, p),
{
    assert(path_components(p).take(path_components(p).len() as int) == path_components(p));
}

} // verus!
