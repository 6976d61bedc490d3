//! Naming of the files that generated images are written to.
//!
//! Paths are plain strings with `/` as the separator.
use vstd::prelude::*;
use crate::text::{
    ascii_lower, chars_of, dec, dec_string, is_ascii_alnum, is_digit, lemma_dec_injective, opt_view,
    push_chars,
};

verus! {

// ---------------------------------------------------------------------------
// Slugs
// ---------------------------------------------------------------------------

/// A character that may appear in a slug.
pub open spec fn is_slug_char(c: char) -> bool {
    ||| '0' <= c <= '9'
    ||| 'a' <= c <= 'z'
    ||| c == '-'
}

/// The slug built from the characters of `text`, before dashes are trimmed,
/// and whether the last step wrote a dash (true at the start, so that no slug
/// begins with one). Once the slug holds `max` characters nothing more is added.
pub open spec fn slug_scan(text: Seq<char>, max: nat) -> (Seq<char>, bool)
    decreases text.len(),
{
    if text.len() == 0 {
        (Seq::empty(), true)
    } else {
        let prev = slug_scan(text.drop_last(), max);
        let c = text.last();
        if prev.0.len() >= max {
            prev
        } else if is_ascii_alnum(c) {
            (prev.0.push(ascii_lower(c)), false)
        } else if !prev.1 {
            (prev.0.push('-'), true)
        } else {
            prev
        }
    }
}

/// Index of the first character at or after `i` that is not `c`.
pub open spec fn first_not(s: Seq<char>, c: char, i: int) -> int
    decreases s.len() - i,
{
    if i >= s.len() {
        s.len() as int
    } else if s[i] == c {
        first_not(s, c, i + 1)
    } else {
        i
    }
}

/// One past the last character at or before `j` that is not `c`.
pub open spec fn end_not(s: Seq<char>, c: char, j: int) -> int
    decreases j,
{
    if j <= 0 {
        0
    } else if s[j - 1] == c {
        end_not(s, c, j - 1)
    } else {
        j
    }
}

/// `s` without leading and trailing copies of `c` (`str::trim_matches`).
pub open spec fn trim_char(s: Seq<char>, c: char) -> Seq<char> {
    let a = first_not(s, c, 0);
    let b = end_not(s, c, s.len() as int);
    if a >= b {
        Seq::empty()
    } else {
        s.subrange(a, b)
    }
}

/// The slug of `text` with at most `max` characters.
pub open spec fn slug_of(text: Seq<char>, max: nat) -> Seq<char> {
    trim_char(slug_scan(text, max).0, '-')
}

/// Shape of a slug: only `[a-z0-9-]`, no leading, trailing or doubled dash,
/// at most `max` characters.
pub open spec fn is_slug(s: Seq<char>, max: nat) -> bool {
    &&& s.len() <= max
    &&& forall|i: int| 0 <= i < s.len() ==> is_slug_char(#[trigger] s[i])
    &&& s.len() > 0 ==> s[0] != '-' && s.last() != '-'
    &&& forall|i: int| 0 <= i < s.len() - 1 && #[trigger] s[i] == '-' ==> s[i + 1] != '-'
}

proof fn lemma_slug_scan(text: Seq<char>, max: nat)
    ensures
        slug_scan(text, max).0.len() <= max,
        forall|i: int|
            0 <= i < slug_scan(text, max).0.len() ==> is_slug_char(
                #[trigger] slug_scan(text, max).0[i],
            ),
        slug_scan(text, max).0.len() > 0 ==> slug_scan(text, max).0[0] != '-',
        forall|i: int|
            0 <= i < slug_scan(text, max).0.len() - 1 && #[trigger] slug_scan(text, max).0[i]
                == '-' ==> slug_scan(text, max).0[i + 1] != '-',
        slug_scan(text, max).1 <==> (slug_scan(text, max).0.len() == 0 || slug_scan(
            text,
            max,
        ).0.last() == '-'),
    decreases text.len(),
{
    if text.len() > 0 {
        lemma_slug_scan(text.drop_last(), max);
        let c = text.last();
        if 'A' <= c <= 'Z' {
            assert('a' <= ascii_lower(c) <= 'z');
        }
    }
}

proof fn lemma_slug_scan_saturated(text: Seq<char>, max: nat, i: int)
    requires
        0 <= i <= text.len(),
        slug_scan(text.take(i), max).0.len() >= max,
    ensures
        slug_scan(text, max) == slug_scan(text.take(i), max),
    decreases text.len() - i,
{
    if i < text.len() {
        assert(text.take(i + 1).drop_last() =~= text.take(i));
        lemma_slug_scan_saturated(text, max, i + 1);
    } else {
        assert(text.take(i) =~= text);
    }
}

proof fn lemma_first_not(s: Seq<char>, c: char, i: int)
    requires
        0 <= i <= s.len(),
    ensures
        i <= first_not(s, c, i) <= s.len(),
        first_not(s, c, i) < s.len() ==> s[first_not(s, c, i)] != c,
    decreases s.len() - i,
{
    if i < s.len() && s[i] == c {
        lemma_first_not(s, c, i + 1);
    }
}

pub(crate) proof fn lemma_end_not(s: Seq<char>, c: char, j: int)
    requires
        0 <= j <= s.len(),
    ensures
        0 <= end_not(s, c, j) <= j,
        end_not(s, c, j) > 0 ==> s[end_not(s, c, j) - 1] != c,
        forall|k: int| end_not(s, c, j) <= k < j ==> s[k] == c,
    decreases j,
{
    if j > 0 && s[j - 1] == c {
        lemma_end_not(s, c, j - 1);
    }
}

/// Every slug has the slug shape.
pub proof fn lemma_slug_shape(text: Seq<char>, max: nat)
    ensures
        is_slug(slug_of(text, max), max),
{
    let raw = slug_scan(text, max).0;
    lemma_slug_scan(text, max);
    lemma_first_not(raw, '-', 0);
    lemma_end_not(raw, '-', raw.len() as int);
    let r = slug_of(text, max);
    let a = first_not(raw, '-', 0);
    if a < end_not(raw, '-', raw.len() as int) {
        assert forall|i: int| 0 <= i < r.len() implies is_slug_char(#[trigger] r[i]) by {
            assert(r[i] == raw[a + i]);
        }
        assert forall|i: int| 0 <= i < r.len() - 1 && #[trigger] r[i] == '-' implies r[i + 1]
            != '-' by {
            assert(r[i] == raw[a + i]);
            assert(r[i + 1] == raw[a + i + 1]);
        }
    }
}

/// Scanning a slug gives the slug back, ending in a dash-free state exactly
/// when it is empty or ends in a dash.
proof fn lemma_slug_scan_of_slug(s: Seq<char>, max: nat, k: int)
    requires
        is_slug(s, max),
        0 <= k <= s.len(),
    ensures
        slug_scan(s.take(k), max) == (s.take(k), k == 0 || s[k - 1] == '-'),
    decreases k,
{
    if k == 0 {
        assert(s.take(0) =~= Seq::<char>::empty());
    } else {
        lemma_slug_scan_of_slug(s, max, k - 1);
        let t = s.take(k);
        assert(t.drop_last() =~= s.take(k - 1));
        let c = s[k - 1];
        assert(t.last() == c);
        assert(is_slug_char(c));
        if c == '-' {
            assert(k - 1 > 0);
            assert(s[k - 2] != '-');
        }
        assert(s.take(k - 1).push(c) =~= t);
    }
}

/// A slug is its own slug.
pub proof fn lemma_slug_of_slug(s: Seq<char>, max: nat)
    requires
        is_slug(s, max),
    ensures
        slug_of(s, max) == s,
{
    lemma_slug_scan_of_slug(s, max, s.len() as int);
    assert(s.take(s.len() as int) =~= s);
    if s.len() > 0 {
        assert(first_not(s, '-', 0) == 0);
        assert(end_not(s, '-', s.len() as int) == s.len());
        assert(s.subrange(0, s.len() as int) =~= s);
    } else {
        assert(trim_char(s, '-') =~= s);
    }
}

/// Slugifying is idempotent: the slug of a slug is that slug.
pub proof fn lemma_slugify_idempotent(text: Seq<char>, max: nat)
    ensures
        slug_of(slug_of(text, max), max) == slug_of(text, max),
{
    lemma_slug_shape(text, max);
    lemma_slug_of_slug(slug_of(text, max), max);
}

/// The characters of `v` as a string, with leading and trailing copies of `c` removed.
fn trim_char_range(v: &Vec<char>, c: char) -> (r: String)
    ensures
        r@ == trim_char(v@, c),
{
    let mut a: usize = 0;
    while a < v.len() && v[a] == c
        invariant
            a <= v@.len(),
            first_not(v@, c, 0) == first_not(v@, c, a as int),
        decreases v.len() - a,
    {
        a = a + 1;
    }
    let mut b: usize = v.len();
    while b > 0 && v[b - 1] == c
        invariant
            b <= v@.len(),
            end_not(v@, c, v@.len() as int) == end_not(v@, c, b as int),
        decreases b,
    {
        b = b - 1;
    }
    let mut r = String::new();
    if a < b {
        push_chars(&mut r, v, a, b);
        assert(Seq::<char>::empty() + v@.subrange(a as int, b as int) =~= v@.subrange(
            a as int,
            b as int,
        ));
    }
    r
}

/// Turns a prompt into a short filesystem-safe slug: ASCII letters and digits
/// lower-cased, every other run of characters turned into one dash, at most
/// `max_len` characters, with no dash at either end.
pub fn slugify(text: &str, max_len: usize) -> (slug: String)
    ensures
        slug@ == slug_of(text@, max_len as nat),
        is_slug(slug@, max_len as nat),
{
    let v = chars_of(text);
    let mut raw: Vec<char> = Vec::new();
    let mut last_dash = true;
    let mut i: usize = 0;
    proof {
        assert(v@.take(0) =~= Seq::<char>::empty());
        assert(v@.take(v@.len() as int) =~= v@);
    }
    while i < v.len()
        invariant
            v@ == text@,
            v@.take(v@.len() as int) == v@,
            i <= v@.len(),
            (raw@, last_dash) == slug_scan(v@.take(i as int), max_len as nat),
        ensures
            (raw@, last_dash) == slug_scan(v@, max_len as nat),
        decreases v.len() - i,
    {
        if raw.len() >= max_len {
            proof {
                lemma_slug_scan_saturated(v@, max_len as nat, i as int);
            }
            break;
        }
        let c = v[i];
        proof {
            assert(v@.take(i + 1 as int).drop_last() =~= v@.take(i as int));
            assert(v@.take(i + 1 as int).last() == c);
        }
        if ('0' <= c && c <= '9') || ('a' <= c && c <= 'z') {
            raw.push(c);
            last_dash = false;
        } else if 'A' <= c && c <= 'Z' {
            raw.push(((c as u32) + 32) as u8 as char);
            last_dash = false;
        } else if !last_dash {
            raw.push('-');
            last_dash = true;
        }
        i = i + 1;
    }
    proof {
        lemma_slug_shape(text@, max_len as nat);
    }
    trim_char_range(&raw, '-')
}

// ---------------------------------------------------------------------------
// Output paths
// ---------------------------------------------------------------------------

/// `name` placed inside `dir`: an absolute `name` stands alone, otherwise a
/// `/` is put between the two unless `dir` is empty or already ends in one.
pub open spec fn join_path(dir: Seq<char>, name: Seq<char>) -> Seq<char> {
    if name.len() > 0 && name[0] == '/' {
        name
    } else if dir.len() == 0 || dir.last() == '/' {
        dir + name
    } else {
        dir.push('/') + name
    }
}

/// The character views of a sequence of strings.
pub open spec fn views(v: Seq<String>) -> Seq<Seq<char>> {
    v.map_values(|s: String| s@)
}

/// Pairwise distinct entries.
pub open spec fn all_distinct(v: Seq<Seq<char>>) -> bool {
    forall|i: int, j: int| 0 <= i < v.len() && 0 <= j < v.len() && i != j ==> v[i] != v[j]
}

/// The common stem of automatically named files: the prompt's slug (or
/// `imagegen` when the slug is empty) followed by a dash and the time stamp.
pub open spec fn auto_base(prompt: Seq<char>, stamp: Seq<char>) -> Seq<char> {
    let slug = slug_of(prompt, 48);
    if slug.len() == 0 {
        "imagegen-"@ + stamp
    } else {
        slug.push('-') + stamp
    }
}

/// `{base}.{ext}`.
pub open spec fn plain_name(base: Seq<char>, ext: Seq<char>) -> Seq<char> {
    base.push('.') + ext
}

/// `{base}-{i}.{ext}`.
pub open spec fn numbered_name(base: Seq<char>, i: nat, ext: Seq<char>) -> Seq<char> {
    (base.push('-') + dec(i)).push('.') + ext
}

/// The `n` names `{base}-1.{ext}` .. `{base}-{n}.{ext}` inside `dir`.
pub open spec fn numbered_paths(dir: Seq<char>, base: Seq<char>, ext: Seq<char>, n: nat) -> Seq<
    Seq<char>,
> {
    Seq::new(n, |i: int| join_path(dir, numbered_name(base, (i + 1) as nat, ext)))
}

/// Automatically named files in `dir`: one file `{base}.{ext}`, or `n`
/// numbered ones.
pub open spec fn auto_paths_spec(
    dir: Seq<char>,
    prompt: Seq<char>,
    stamp: Seq<char>,
    ext: Seq<char>,
    n: nat,
) -> Seq<Seq<char>> {
    let base = auto_base(prompt, stamp);
    if n == 1 {
        seq![join_path(dir, plain_name(base, ext))]
    } else {
        numbered_paths(dir, base, ext, n)
    }
}

/// Numbered siblings of an explicit output file: the parent directory (else
/// `.`), the file stem (else `image`) and the extension (else `png`).
pub open spec fn indexed_paths_spec(
    parent: Option<Seq<char>>,
    stem: Option<Seq<char>>,
    extension: Option<Seq<char>>,
    n: nat,
) -> Seq<Seq<char>> {
    let dir = match parent {
        Some(p) => p,
        None => "."@,
    };
    let base = match stem {
        Some(s) => s,
        None => "image"@,
    };
    let ext = match extension {
        Some(e) => e,
        None => "png"@,
    };
    numbered_paths(dir, base, ext, n)
}

/// An output argument that names a directory by its spelling: it ends in a
/// path separator.
pub open spec fn names_directory(out: Seq<char>) -> bool {
    out.len() > 0 && (out.last() == '/' || out.last() == '\\')
}

/// Joining onto one directory keeps names apart when they agree on being
/// absolute.
pub proof fn lemma_join_injective(dir: Seq<char>, a: Seq<char>, b: Seq<char>)
    requires
        (a.len() > 0 && a[0] == '/') == (b.len() > 0 && b[0] == '/'),
        join_path(dir, a) == join_path(dir, b),
    ensures
        a == b,
{
    let d = if dir.len() == 0 || dir.last() == '/' {
        dir
    } else {
        dir.push('/')
    };
    if !(a.len() > 0 && a[0] == '/') {
        assert(join_path(dir, a) == d + a);
        assert(join_path(dir, b) == d + b);
        assert((d + a).subrange(d.len() as int, (d + a).len() as int) =~= a);
        assert((d + b).subrange(d.len() as int, (d + b).len() as int) =~= b);
    }
}

/// Numbered names differ when their numbers do.
pub proof fn lemma_numbered_names_distinct(base: Seq<char>, ext: Seq<char>, i: nat, j: nat)
    requires
        i != j,
    ensures
        numbered_name(base, i, ext) != numbered_name(base, j, ext),
{
    let x = numbered_name(base, i, ext);
    let y = numbered_name(base, j, ext);
    if x == y {
        let p = base.push('-');
        let di = dec(i);
        let dj = dec(j);
        assert(x =~= p + di + (seq!['.'] + ext));
        assert(y =~= p + dj + (seq!['.'] + ext));
        assert(x.len() == y.len());
        assert(di.len() == dj.len());
        assert(x.subrange(p.len() as int, (p.len() + di.len()) as int) =~= di);
        assert(y.subrange(p.len() as int, (p.len() + dj.len()) as int) =~= dj);
        lemma_dec_injective(i, j);
    }
}

/// The numbered paths are pairwise distinct.
pub proof fn lemma_numbered_paths_distinct(dir: Seq<char>, base: Seq<char>, ext: Seq<char>, n: nat)
    ensures
        numbered_paths(dir, base, ext, n).len() == n,
        all_distinct(numbered_paths(dir, base, ext, n)),
{
    let ps = numbered_paths(dir, base, ext, n);
    assert forall|i: int, j: int| 0 <= i < ps.len() && 0 <= j < ps.len() && i != j implies ps[i]
        != ps[j] by {
        let a = numbered_name(base, (i + 1) as nat, ext);
        let b = numbered_name(base, (j + 1) as nat, ext);
        lemma_numbered_names_distinct(base, ext, (i + 1) as nat, (j + 1) as nat);
        assert(a[0] == b[0]) by {
            if base.len() > 0 {
                assert(a[0] == base[0]);
                assert(b[0] == base[0]);
            } else {
                assert(a[0] == '-');
                assert(b[0] == '-');
            }
        }
        if ps[i] == ps[j] {
            lemma_join_injective(dir, a, b);
        }
    }
}

/// `name` placed inside `dir` (see [`join_path`]).
pub fn join(dir: &str, name: &str) -> (r: String)
    ensures
        r@ == join_path(dir@, name@),
{
    let d = chars_of(dir);
    let m = chars_of(name);
    if m.len() > 0 && m[0] == '/' {
        return name.to_owned();
    }
    let mut r = dir.to_owned();
    if d.len() > 0 && d[d.len() - 1] != '/' {
        r.push('/');
    }
    r.append(name);
    r
}

/// `{base}-{i}.{ext}`.
fn numbered(base: &str, i: usize, ext: &str) -> (r: String)
    ensures
        r@ == numbered_name(base@, i as nat, ext@),
{
    let mut r = base.to_owned();
    r.push('-');
    let d = dec_string(i as u64);
    r.append(d.as_str());
    r.push('.');
    r.append(ext);
    r
}

/// The `n` paths `{dir}/{base}-1.{ext}` .. `{dir}/{base}-{n}.{ext}`.
fn numbered_in(dir: &str, base: &str, ext: &str, n: usize) -> (r: Vec<String>)
    ensures
        views(r@) == numbered_paths(dir@, base@, ext@, n as nat),
{
    let mut r: Vec<String> = Vec::new();
    let mut i: usize = 0;
    while i < n
        invariant
            i <= n,
            r@.len() == i,
            forall|k: int|
                0 <= k < i ==> #[trigger] r@[k]@ == join_path(
                    dir@,
                    numbered_name(base@, (k + 1) as nat, ext@),
                ),
        decreases n - i,
    {
        let name = numbered(base, i + 1, ext);
        let p = join(dir, name.as_str());
        r.push(p);
        i = i + 1;
    }
    assert(views(r@) =~= numbered_paths(dir@, base@, ext@, n as nat));
    r
}

/// Automatically named output files inside `dir` for `n` images of `prompt`,
/// stamped with `stamp`: `{slug}-{stamp}.{ext}` for one image and
/// `{slug}-{stamp}-{i}.{ext}` for several, with `imagegen` standing in for an
/// empty slug.
pub fn auto_paths(dir: &str, prompt: &str, ext: &str, n: usize, stamp: &str) -> (r: Vec<String>)
    ensures
        views(r@) == auto_paths_spec(dir@, prompt@, stamp@, ext@, n as nat),
{
    let slug = slugify(prompt, 48);
    let mut base = String::new();
    if slug.as_str().is_empty() {
        base.append("imagegen-");
    } else {
        base.append(slug.as_str());
        base.push('-');
    }
    base.append(stamp);
    proof {
        assert(base@ =~= auto_base(prompt@, stamp@));
    }
    if n == 1 {
        let mut name = base.clone();
        name.push('.');
        name.append(ext);
        let p = join(dir, name.as_str());
        let mut r: Vec<String> = Vec::new();
        r.push(p);
        assert(views(r@) =~= auto_paths_spec(dir@, prompt@, stamp@, ext@, n as nat));
        r
    } else {
        numbered_in(dir, base.as_str(), ext, n)
    }
}

/// Numbered output files next to an explicit output path, given the path's
/// parent directory, file stem and extension as far as it has them.
pub fn indexed_paths_from(
    parent: Option<String>,
    stem: Option<String>,
    extension: Option<String>,
    n: usize,
) -> (r: Vec<String>)
    ensures
        views(r@) == indexed_paths_spec(
            opt_view(parent),
            opt_view(stem),
            opt_view(extension),
            n as nat,
        ),
{
    let dir = match parent {
        Some(p) => p,
        None => ".".to_owned(),
    };
    let base = match stem {
        Some(s) => s,
        None => "image".to_owned(),
    };
    let ext = match extension {
        Some(e) => e,
        None => "png".to_owned(),
    };
    numbered_in(dir.as_str(), base.as_str(), ext.as_str(), n)
}

/// Automatically named paths come in the number asked for and differ
/// pairwise.
pub proof fn lemma_auto_paths(
    dir: Seq<char>,
    prompt: Seq<char>,
    stamp: Seq<char>,
    ext: Seq<char>,
    n: nat,
)
    ensures
        auto_paths_spec(dir, prompt, stamp, ext, n).len() == n,
        all_distinct(auto_paths_spec(dir, prompt, stamp, ext, n)),
{
    lemma_numbered_paths_distinct(dir, auto_base(prompt, stamp), ext, n);
}

/// What every automatically chosen file name begins with: the prompt's slug
/// and a dash, or `imagegen-` for an empty slug.
pub open spec fn auto_prefix(prompt: Seq<char>) -> Seq<char> {
    let slug = slug_of(prompt, 48);
    if slug.len() == 0 {
        "imagegen-"@
    } else {
        slug.push('-')
    }
}

/// Automatically named files in a directory given with a trailing `/` lie
/// directly under that spelling of it: each path is the directory followed by
/// a name that begins with [`auto_prefix`] and ends with `.{ext}`.
pub proof fn lemma_auto_paths_in_dir(
    dir: Seq<char>,
    prompt: Seq<char>,
    stamp: Seq<char>,
    ext: Seq<char>,
    n: nat,
)
    requires
        dir.len() > 0,
        dir.last() == '/',
    ensures
        forall|i: int|
            0 <= i < n ==> {
                let p = #[trigger] auto_paths_spec(dir, prompt, stamp, ext, n)[i];
                let name = p.skip(dir.len() as int);
                &&& p == dir + name
                &&& name.take(auto_prefix(prompt).len() as int) == auto_prefix(prompt)
                &&& name.skip(name.len() - ext.len() - 1) == seq!['.'] + ext
            },
{
    let slug = slug_of(prompt, 48);
    let pre = auto_prefix(prompt);
    let base = auto_base(prompt, stamp);
    lemma_slug_shape(prompt, 48);
    reveal_strlit("imagegen-");
    assert(base == pre + stamp);
    assert(pre.len() > 0 && pre[0] != '/') by {
        if slug.len() > 0 {
            assert(pre[0] == slug[0]);
            assert(is_slug_char(slug[0]));
        }
    }
    assert forall|i: int| 0 <= i < n implies {
        let p = #[trigger] auto_paths_spec(dir, prompt, stamp, ext, n)[i];
        let name = p.skip(dir.len() as int);
        &&& p == dir + name
        &&& name.take(pre.len() as int) == pre
        &&& name.skip(name.len() - ext.len() - 1) == seq!['.'] + ext
    } by {
        let p = auto_paths_spec(dir, prompt, stamp, ext, n)[i];
        let name = if n == 1 {
            plain_name(base, ext)
        } else {
            numbered_name(base, (i + 1) as nat, ext)
        };
        let mid = if n == 1 {
            base
        } else {
            base.push('-') + dec((i + 1) as nat)
        };
        assert(name =~= pre + (stamp + mid.skip(base.len() as int)) + (seq!['.'] + ext)) by {
            assert(mid =~= pre + stamp + mid.skip(base.len() as int));
        }
        assert(name[0] == pre[0]);
        assert(p == dir + name);
        assert((dir + name).skip(dir.len() as int) =~= name);
        assert(name.take(pre.len() as int) =~= pre);
        assert(name.skip(name.len() - ext.len() - 1) =~= seq!['.'] + ext);
    }
}

/// Numbered siblings come in the number asked for and differ pairwise.
pub proof fn lemma_indexed_paths(
    parent: Option<Seq<char>>,
    stem: Option<Seq<char>>,
    extension: Option<Seq<char>>,
    n: nat,
)
    ensures
        indexed_paths_spec(parent, stem, extension, n).len() == n,
        all_distinct(indexed_paths_spec(parent, stem, extension, n)),
{
    let dir = match parent {
        Some(p) => p,
        None => "."@,
    };
    let base = match stem {
        Some(s) => s,
        None => "image"@,
    };
    let ext = match extension {
        Some(e) => e,
        None => "png"@,
    };
    lemma_numbered_paths_distinct(dir, base, ext, n);
}

/// A time stamp as the local clock prints it for file names: digits, with
/// dashes between fields and a sign only before a year beyond four digits.
pub open spec fn is_stamp_text(s: Seq<char>) -> bool {
    forall|i: int| 0 <= i < s.len() ==> is_digit(#[trigger] s[i]) || s[i] == '+' || s[i] == '-'
}

/// The pattern that automatic file names are stamped with.
pub const STAMP_PATTERN: &'static str = "%Y%m%d-%H%M%S";

/// `Path::is_dir`: whether `path` names an existing directory. What is on
/// disk decides, so nothing is promised of the answer.
#[verifier::external_body]
fn path_is_dir(path: &str) -> bool {
    std::path::Path::new(path).is_dir()
}

/// What `Path::parent` gives for a path spelled `p`: the path without its
/// final component, split by the path rules of the platform the crate is
/// built for, from the text alone.
pub uninterp spec fn path_parent_of(p: Seq<char>) -> Option<Seq<char>>;

/// What `Path::file_name` gives for a path spelled `p`: its final component,
/// unless it ends in `..`.
pub uninterp spec fn path_file_name_of(p: Seq<char>) -> Option<Seq<char>>;

/// What `Path::file_stem` gives for a path spelled `p`: the file name without
/// its extension.
pub uninterp spec fn path_file_stem_of(p: Seq<char>) -> Option<Seq<char>>;

/// What `Path::extension` gives for a path spelled `p`: what follows the last
/// `.` of the file name.
pub uninterp spec fn path_extension_of(p: Seq<char>) -> Option<Seq<char>>;

/// `Path::parent`, named [`path_parent_of`]; the documentation promises `None`
/// for the empty path.
#[verifier::external_body]
pub(crate) fn path_parent(path: &str) -> (r: Option<String>)
    ensures
        opt_view(r) == path_parent_of(path@),
        path@.len() == 0 ==> r is None,
{
    match std::path::Path::new(path).parent() {
        Some(p) => Some(p.to_string_lossy().into_owned()),
        None => None,
    }
}

/// `Path::file_name`, named [`path_file_name_of`]; the documentation promises
/// `None` when the path ends in `..`, and for the empty path.
#[verifier::external_body]
pub(crate) fn path_file_name(path: &str) -> (r: Option<String>)
    ensures
        opt_view(r) == path_file_name_of(path@),
        path@.len() == 0 ==> r is None,
        path@ == ".."@ ==> r is None,
{
    match std::path::Path::new(path).file_name() {
        Some(s) => Some(s.to_string_lossy().into_owned()),
        None => None,
    }
}

/// `Path::file_stem`, named [`path_file_stem_of`]; the documentation promises
/// `None` when there is no file name, as for the empty path.
#[verifier::external_body]
pub(crate) fn path_file_stem(path: &str) -> (r: Option<String>)
    ensures
        opt_view(r) == path_file_stem_of(path@),
        path@.len() == 0 ==> r is None,
{
    match std::path::Path::new(path).file_stem() {
        Some(s) => Some(s.to_string_lossy().into_owned()),
        None => None,
    }
}

/// `Path::extension`, named [`path_extension_of`]; the documentation promises
/// `None` when there is no file name, as for the empty path.
#[verifier::external_body]
pub(crate) fn path_extension(path: &str) -> (r: Option<String>)
    ensures
        opt_view(r) == path_extension_of(path@),
        path@.len() == 0 ==> r is None,
{
    match std::path::Path::new(path).extension() {
        Some(s) => Some(s.to_string_lossy().into_owned()),
        None => None,
    }
}

/// `chrono::Local::now()` formatted with `pattern`. The clock and the local
/// time zone decide the text; for the stamp pattern (the only one taken, as
/// other patterns may not be valid) chrono prints a zero-padded four-digit
/// year (with a sign only beyond that range), the two-digit month, day, hour,
/// minute and second, and the dash: only digits, `+` and `-`.
#[verifier::external_body]
fn local_time_text(pattern: &str) -> (s: String)
    requires
        pattern@ == STAMP_PATTERN@,
    ensures
        is_stamp_text(s@),
{
    chrono::Local::now().format(pattern).to_string()
}

/// Numbered siblings of the explicit output file `path`: its parent
/// directory, file stem and extension as `Path` splits them, with `.`,
/// `image` and `png` standing in for missing parts.
pub fn indexed_paths(path: &str, n: usize) -> (r: Vec<String>)
    ensures
        views(r@) == indexed_paths_spec(
            path_parent_of(path@),
            path_file_stem_of(path@),
            path_extension_of(path@),
            n as nat,
        ),
{
    let stem = path_file_stem(path);
    let extension = path_extension(path);
    let parent = path_parent(path);
    indexed_paths_from(parent, stem, extension, n)
}

/// The paths planned for the output argument `out`, given whether it is an
/// existing directory (`is_dir`), the time stamp, and its parent, file stem
/// and extension as `Path` splits them.
pub open spec fn plan_paths_spec(
    out: Option<Seq<char>>,
    is_dir: bool,
    stamp: Seq<char>,
    parent: Option<Seq<char>>,
    stem: Option<Seq<char>>,
    extension: Option<Seq<char>>,
    prompt: Seq<char>,
    ext: Seq<char>,
    n: nat,
) -> Seq<Seq<char>> {
    match out {
        None => auto_paths_spec("."@, prompt, stamp, ext, n),
        Some(o) => if is_dir || names_directory(o) {
            auto_paths_spec(o, prompt, stamp, ext, n)
        } else if n == 1 {
            seq![o]
        } else {
            indexed_paths_spec(parent, stem, extension, n)
        },
    }
}

/// Plans the output file paths for `n` images from the disk's and the
/// clock's answers: `is_dir` says whether `out` is an existing directory,
/// `stamp` is the time stamp, and `parent`, `stem` and `extension` are the
/// parts of `out`.
///
/// - No `out`: automatically named files in the current directory.
/// - `out` naming an existing directory, or ending in a path separator:
///   automatically named files inside it.
/// - Otherwise `out` is a file path: itself for one image, and for several an
///   index put before the extension (`img.png` gives `img-1.png`,
///   `img-2.png`, ...).
///
/// There are exactly `n` paths and no two of them are equal.
pub fn plan_paths_with(
    out: Option<&str>,
    is_dir: bool,
    stamp: &str,
    parent: Option<String>,
    stem: Option<String>,
    extension: Option<String>,
    prompt: &str,
    ext: &str,
    n: usize,
) -> (r: Vec<String>)
    ensures
        views(r@) == plan_paths_spec(
            match out {
                Some(o) => Some(o@),
                None => None,
            },
            is_dir,
            stamp@,
            opt_view(parent),
            opt_view(stem),
            opt_view(extension),
            prompt@,
            ext@,
            n as nat,
        ),
        r@.len() == n,
        all_distinct(views(r@)),
{
    match out {
        None => {
            let r = auto_paths(".", prompt, ext, n, stamp);
            proof {
                lemma_auto_paths("."@, prompt@, stamp@, ext@, n as nat);
            }
            r
        },
        Some(path) => {
            let v = chars_of(path);
            let dir_spelling = v.len() > 0 && (v[v.len() - 1] == '/' || v[v.len() - 1] == '\\');
            if is_dir || dir_spelling {
                let r = auto_paths(path, prompt, ext, n, stamp);
                proof {
                    lemma_auto_paths(path@, prompt@, stamp@, ext@, n as nat);
                }
                r
            } else if n == 1 {
                let mut r: Vec<String> = Vec::new();
                r.push(path.to_owned());
                assert(views(r@) =~= seq![path@]);
                r
            } else {
                let r = indexed_paths_from(parent, stem, extension, n);
                proof {
                    lemma_indexed_paths(
                        opt_view(parent),
                        opt_view(stem),
                        opt_view(extension),
                        n as nat,
                    );
                }
                r
            }
        },
    }
}

/// Plans the output file paths for `n` images, asking the disk whether `out`
/// is an existing directory and the local clock for the time stamp (see
/// [`plan_paths_with`] for the rules).
///
/// Whatever the disk and the clock say, there are exactly `n` paths and no
/// two of them are equal; the stamp holds only digits, `+` and `-`; and a
/// file path that is no directory gives itself for one image and its
/// numbered siblings for several.
pub fn plan_paths(out: Option<&str>, prompt: &str, ext: &str, n: usize) -> (r: Vec<String>)
    ensures
        r@.len() == n,
        all_distinct(views(r@)),
        out is None ==> exists|stamp: Seq<char>|
            is_stamp_text(stamp) && views(r@) == #[trigger] auto_paths_spec(
                "."@,
                prompt@,
                stamp,
                ext@,
                n as nat,
            ),
        out is Some && names_directory(out->0@) ==> exists|stamp: Seq<char>|
            is_stamp_text(stamp) && views(r@) == #[trigger] auto_paths_spec(
                out->0@,
                prompt@,
                stamp,
                ext@,
                n as nat,
            ),
        out is Some && !names_directory(out->0@) ==> {
            ||| exists|stamp: Seq<char>|
                is_stamp_text(stamp) && views(r@) == #[trigger] auto_paths_spec(
                    out->0@,
                    prompt@,
                    stamp,
                    ext@,
                    n as nat,
                )
            ||| n == 1 && views(r@) == seq![out->0@]
            ||| n != 1 && views(r@) == indexed_paths_spec(
                path_parent_of(out->0@),
                path_file_stem_of(out->0@),
                path_extension_of(out->0@),
                n as nat,
            )
        },
{
    let stamp = local_time_text(STAMP_PATTERN);
    match out {
        None => plan_paths_with(None, false, stamp.as_str(), None, None, None, prompt, ext, n),
        Some(path) => {
            let is_dir = path_is_dir(path);
            let parent = path_parent(path);
            let stem = path_file_stem(path);
            let extension = path_extension(path);
            plan_paths_with(
                Some(path),
                is_dir,
                stamp.as_str(),
                parent,
                stem,
                extension,
                prompt,
                ext,
                n,
            )
        },
    }
}

} // verus!
verus! {

/// The name of the `i`-th of `n` automatically named files (counting from 0).
pub open spec fn auto_name(prompt: Seq<char>, stamp: Seq<char>, ext: Seq<char>, n: nat, i: int) -> Seq<
    char,
> {
    if n == 1 {
        plain_name(auto_base(prompt, stamp), ext)
    } else {
        numbered_name(auto_base(prompt, stamp), (i + 1) as nat, ext)
    }
}

/// An output argument that names an existing directory, spelled with or
/// without a trailing separator, gets automatically named files inside it:
/// each planned path is that directory joined with a name that begins with
/// the prompt's slug prefix ([`auto_prefix`]) and ends with `.{ext}`.
pub proof fn lemma_existing_directory_gets_auto_names(
    dir: Seq<char>,
    stamp: Seq<char>,
    parent: Option<Seq<char>>,
    stem: Option<Seq<char>>,
    extension: Option<Seq<char>>,
    prompt: Seq<char>,
    ext: Seq<char>,
    n: nat,
)
    ensures
        plan_paths_spec(Some(dir), true, stamp, parent, stem, extension, prompt, ext, n).len() == n,
        forall|i: int|
            0 <= i < n ==> {
                let name = auto_name(prompt, stamp, ext, n, i);
                &&& #[trigger] plan_paths_spec(
                    Some(dir),
                    true,
                    stamp,
                    parent,
                    stem,
                    extension,
                    prompt,
                    ext,
                    n,
                )[i] == join_path(dir, name)
                &&& name.take(auto_prefix(prompt).len() as int) == auto_prefix(prompt)
                &&& name.len() >= ext.len() + 1
                &&& name.skip(name.len() - ext.len() - 1) == seq!['.'] + ext
            },
{
    let pre = auto_prefix(prompt);
    let base = auto_base(prompt, stamp);
    let ps = plan_paths_spec(Some(dir), true, stamp, parent, stem, extension, prompt, ext, n);
    lemma_auto_paths(dir, prompt, stamp, ext, n);
    reveal_strlit("imagegen-");
    assert(base == pre + stamp);
    assert forall|i: int| 0 <= i < n implies {
        let name = auto_name(prompt, stamp, ext, n, i);
        &&& #[trigger] ps[i] == join_path(dir, name)
        &&& name.take(pre.len() as int) == pre
        &&& name.len() >= ext.len() + 1
        &&& name.skip(name.len() - ext.len() - 1) == seq!['.'] + ext
    } by {
        let name = auto_name(prompt, stamp, ext, n, i);
        let mid = if n == 1 {
            base
        } else {
            base.push('-') + dec((i + 1) as nat)
        };
        assert(name =~= pre + (stamp + mid.skip(base.len() as int)) + (seq!['.'] + ext)) by {
            assert(mid =~= pre + stamp + mid.skip(base.len() as int));
        }
        assert(ps[i] == join_path(dir, name));
        assert(name.take(pre.len() as int) =~= pre);
        assert(name.skip(name.len() - ext.len() - 1) =~= seq!['.'] + ext);
    }
}

/// A part that may be missing, with what stands in for it.
pub open spec fn or_else(v: Option<Seq<char>>, d: Seq<char>) -> Seq<char> {
    match v {
        Some(x) => x,
        None => d,
    }
}

/// An explicit output file that is no directory is used as given for one
/// image; for several, the `i`-th path (from 1) is `{stem}-{i}.{extension}`
/// inside the file's parent directory, with `.`, `image` and `png` standing
/// in for missing parts, whatever extension the images have.
pub proof fn lemma_explicit_file_paths(
    out: Seq<char>,
    stamp: Seq<char>,
    parent: Option<Seq<char>>,
    stem: Option<Seq<char>>,
    extension: Option<Seq<char>>,
    prompt: Seq<char>,
    ext: Seq<char>,
    n: nat,
)
    requires
        !names_directory(out),
    ensures
        plan_paths_spec(Some(out), false, stamp, parent, stem, extension, prompt, ext, n).len()
            == n,
        n == 1 ==> plan_paths_spec(Some(out), false, stamp, parent, stem, extension, prompt, ext, n)
            == seq![out],
        n != 1 ==> forall|i: int|
            0 <= i < n ==> #[trigger] plan_paths_spec(
                Some(out),
                false,
                stamp,
                parent,
                stem,
                extension,
                prompt,
                ext,
                n,
            )[i] == join_path(
                or_else(parent, "."@),
                or_else(stem, "image"@) + "-"@ + dec((i + 1) as nat) + "."@ + or_else(
                    extension,
                    "png"@,
                ),
            ),
{
    reveal_strlit("-");
    reveal_strlit(".");
    let ps = plan_paths_spec(Some(out), false, stamp, parent, stem, extension, prompt, ext, n);
    if n != 1 {
        lemma_indexed_paths(parent, stem, extension, n);
        assert forall|i: int| 0 <= i < n implies #[trigger] ps[i] == join_path(
            or_else(parent, "."@),
            or_else(stem, "image"@) + "-"@ + dec((i + 1) as nat) + "."@ + or_else(extension, "png"@),
        ) by {
            let b = or_else(stem, "image"@);
            let e = or_else(extension, "png"@);
            assert(numbered_name(b, (i + 1) as nat, e) =~= b + "-"@ + dec((i + 1) as nat) + "."@
                + e);
        }
    }
}

} // verus!
