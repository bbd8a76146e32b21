//! Texture names and pixel checks: cleaning the paths stored in B3D files, taking
//! their file stems, and looking at decoded alpha values.
use vstd::prelude::*;
use vstd::string::StringExecFns;
use crate::text::{chars_of, push_str, string_from_chars};
use image::GenericImageView;

verus! {

/// The alpha values of the pixels of an encoded image (`None` when it does not decode).
/// A function of the bytes alone.
pub uninterp spec fn decoded_alphas(data: Seq<u8>) -> Option<Seq<u8>>;

/// `image::load_from_memory`, then the alpha channel of each pixel as `GenericImageView::pixels`
/// yields them in RGBA8. Stated: the result is `decoded_alphas(data)`; which images decode
/// and what alpha values they hold is left to the `image` crate.
#[verifier::external_body]
fn decode_alphas(data: &[u8]) -> (r: Option<Vec<u8>>)
    ensures
        match r {
            Some(a) => decoded_alphas(data@) == Some(a@),
            None => decoded_alphas(data@) is None,
        },
{
    image::load_from_memory(data).ok().map(|img| img.pixels().map(|(_, _, px)| px[3]).collect())
}

/// Some pixel of the decoded image is not fully opaque.
pub open spec fn spec_has_alpha(data: Seq<u8>) -> bool {
    match decoded_alphas(data) {
        Some(a) => exists|i: int| 0 <= i < a.len() && #[trigger] a[i] < 255,
        None => false,
    }
}

/// Some pixel of the decoded image is semi-transparent (alpha strictly between 0 and 255).
pub open spec fn spec_has_semi_transparent(data: Seq<u8>) -> bool {
    match decoded_alphas(data) {
        Some(a) => exists|i: int| 0 <= i < a.len() && 0 < #[trigger] a[i] < 255,
        None => false,
    }
}

/// Whether some pixel of the image has alpha below 255; `false` when it does not decode.
pub fn png_has_alpha(data: &[u8]) -> (r: bool)
    ensures
        r == spec_has_alpha(data@),
{
    let alphas = match decode_alphas(data) {
        Some(a) => a,
        None => return false,
    };
    let mut i: usize = 0;
    while i < alphas.len()
        invariant
            decoded_alphas(data@) == Some(alphas@),
            i <= alphas@.len(),
            forall|k: int| 0 <= k < i ==> alphas@[k] >= 255,
        decreases alphas@.len() - i,
    {
        if alphas[i] < 255 {
            proof {
                let a = decoded_alphas(data@)->Some_0;
                assert(a[i as int] < 255);
            }
            return true;
        }
        i = i + 1;
    }
    false
}

/// Whether some pixel has alpha between 1 and 254; `false` when it does not decode.
pub fn png_has_semi_transparent(data: &[u8]) -> (r: bool)
    ensures
        r == spec_has_semi_transparent(data@),
{
    let alphas = match decode_alphas(data) {
        Some(a) => a,
        None => return false,
    };
    let mut i: usize = 0;
    while i < alphas.len()
        invariant
            decoded_alphas(data@) == Some(alphas@),
            i <= alphas@.len(),
            forall|k: int| 0 <= k < i ==> !(0 < #[trigger] alphas@[k] < 255),
        decreases alphas@.len() - i,
    {
        let a = alphas[i];
        if a > 0 && a < 255 {
            proof {
                let a = decoded_alphas(data@)->Some_0;
                assert(0 < a[i as int] < 255);
            }
            return true;
        }
        i = i + 1;
    }
    false
}

/// `s` with as many leading copies of `p` removed as there are.
pub open spec fn trim_start_rep(s: Seq<char>, p: Seq<char>) -> Seq<char>
    decreases s.len(),
{
    if p.len() > 0 && p.len() <= s.len() && s.subrange(0, p.len() as int) == p {
        trim_start_rep(s.subrange(p.len() as int, s.len() as int), p)
    } else {
        s
    }
}

/// A B3D texture path made portable: leading `.\` and then leading `./` removed, and
/// backslashes turned into slashes.
pub open spec fn clean_path(raw: Seq<char>) -> Seq<char> {
    trim_start_rep(trim_start_rep(raw, seq!['.', '\\']), seq!['.', '/']).map_values(
        |c: char| if c == '\\' { '/' } else { c },
    )
}

/// `v[from..]` without leading copies of `p`: the start index after them.
fn skip_rep(v: &Vec<char>, from: usize, p0: char, p1: char) -> (k: usize)
    requires
        from <= v@.len(),
    ensures
        from <= k <= v@.len(),
        v@.subrange(k as int, v@.len() as int) == trim_start_rep(v@.subrange(from as int, v@.len() as int), seq![p0, p1]),
{
    let mut k = from;
    while v.len() - k >= 2 && v[k] == p0 && v[k + 1] == p1
        invariant
            from <= k <= v@.len(),
            trim_start_rep(v@.subrange(k as int, v@.len() as int), seq![p0, p1])
                == trim_start_rep(v@.subrange(from as int, v@.len() as int), seq![p0, p1]),
        decreases v@.len() - k,
    {
        proof {
            let t = v@.subrange(k as int, v@.len() as int);
            assert(t.subrange(0, 2) =~= seq![p0, p1]);
            assert(t.subrange(2, t.len() as int) =~= v@.subrange(k + 2, v@.len() as int));
        }
        k = k + 2;
    }
    proof {
        let t = v@.subrange(k as int, v@.len() as int);
        if 2 <= t.len() {
            assert(t.subrange(0, 2) != seq![p0, p1]) by {
                if t.subrange(0, 2) == seq![p0, p1] {
                    assert(t.subrange(0, 2)[0] == v@[k as int]);
                    assert(t.subrange(0, 2)[1] == v@[k + 1]);
                }
            }
        }
    }
    k
}

/// The characters of a cleaned B3D texture path (see `clean_path`).
fn clean_chars(raw: &str) -> (out: Vec<char>)
    ensures
        out@ == clean_path(raw@),
{
    let v = chars_of(raw);
    let k1 = skip_rep(&v, 0, '.', '\\');
    proof {
        assert(v@.subrange(0, v@.len() as int) =~= raw@);
    }
    let ghost t1 = v@.subrange(k1 as int, v@.len() as int);
    let k2 = skip_rep(&v, k1, '.', '/');
    proof {
        assert(t1.subrange(0, t1.len() as int) =~= t1);
        assert(t1 =~= v@.subrange(k1 as int, v@.len() as int));
    }
    let mut out: Vec<char> = Vec::new();
    let mut i = k2;
    while i < v.len()
        invariant
            k2 <= i <= v@.len(),
            out@ =~= v@.subrange(k2 as int, i as int).map_values(|c: char| if c == '\\' { '/' } else { c }),
        decreases v@.len() - i,
    {
        let c = v[i];
        out.push(if c == '\\' { '/' } else { c });
        i = i + 1;
    }
    out
}

/// A portable copy of a B3D texture path (see `clean_path`).
pub fn clean_texture_path(raw: &str) -> (r: String)
    ensures
        r@ == clean_path(raw@),
{
    let out = clean_chars(raw);
    string_from_chars(&out)
}

/// The component `s[a..b]` that has just ended becomes the last one unless it is empty
/// (a doubled or trailing slash) or `.`.
pub open spec fn close_span(s: Seq<char>, a: int, b: int, last: Option<(int, int)>) -> Option<(int, int)> {
    if b - a == 0 || (b - a == 1 && s[a] == '.') { last } else { Some((a, b)) }
}

/// Scans `s` from `i` for `/`-separated components, with the current component starting
/// at `start` and `last` the span of the last complete one; gives the span of the path's
/// last component other than empty ones and `.`.
pub open spec fn scan_span(s: Seq<char>, i: int, start: int, last: Option<(int, int)>) -> Option<(int, int)>
    decreases s.len() - i,
{
    if i >= s.len() {
        close_span(s, start, s.len() as int, last)
    } else if s[i] == '/' {
        scan_span(s, i + 1, i + 1, close_span(s, start, i, last))
    } else {
        scan_span(s, i + 1, start, last)
    }
}

/// Where the file name of a `/`-separated path lies: its last component other than empty
/// ones and `.`; none when there is no such component or it is `..`.
pub open spec fn file_span(s: Seq<char>) -> Option<(int, int)> {
    match scan_span(s, 0, 0, None) {
        Some((a, b)) => if s.subrange(a, b) == seq!['.', '.'] { None } else { Some((a, b)) },
        None => None,
    }
}

/// The file name of a `/`-separated path (see `file_span`).
pub open spec fn file_name(s: Seq<char>) -> Option<Seq<char>> {
    match file_span(s) {
        Some((a, b)) => Some(s.subrange(a, b)),
        None => None,
    }
}

/// The index of the last `.` in a name, or -1.
pub open spec fn last_dot(n: Seq<char>) -> int
    decreases n.len(),
{
    if n.len() == 0 {
        -1
    } else if n.last() == '.' {
        n.len() - 1
    } else {
        last_dot(n.drop_last())
    }
}

/// The stem of a file name: the part before the last `.`, or the whole name when it has
/// no `.` or its only `.` is the first character.
pub open spec fn file_stem(n: Seq<char>) -> Seq<char> {
    let k = last_dot(n);
    if k > 0 { n.subrange(0, k) } else { n }
}

/// The extension of a file name: the part after the last `.`, if that `.` is not the
/// first character.
pub open spec fn file_ext(n: Seq<char>) -> Option<Seq<char>> {
    let k = last_dot(n);
    if k > 0 { Some(n.subrange(k + 1, n.len() as int)) } else { None }
}

/// The texture stem of a raw B3D path: the file stem of the cleaned path, or "unknown"
/// when the path has no file name.
pub open spec fn spec_texture_stem(raw: Seq<char>) -> Seq<char> {
    match file_name(clean_path(raw)) {
        Some(n) => file_stem(n),
        None => seq!['u', 'n', 'k', 'n', 'o', 'w', 'n'],
    }
}

/// The last index is within a scanned prefix.
proof fn lemma_last_dot_bounds(n: Seq<char>)
    ensures
        -1 <= last_dot(n) < n.len(),
        last_dot(n) >= 0 ==> n[last_dot(n)] == '.',
    decreases n.len(),
{
    if n.len() > 0 && n.last() != '.' {
        lemma_last_dot_bounds(n.drop_last());
    }
}

/// The span of the file name of a `/`-separated path (see `file_span`).
fn file_span_of(v: &Vec<char>) -> (r: Option<(usize, usize)>)
    ensures
        match r {
            Some((a, b)) => file_span(v@) == Some((a as int, b as int)) && a < b <= v@.len(),
            None => file_span(v@) is None,
        },
{
    let mut start: usize = 0;
    let mut last: Option<(usize, usize)> = None;
    let mut i: usize = 0;
    while i < v.len()
        invariant
            start <= i <= v@.len(),
            match last {
                Some((a, b)) => a < b <= i,
                None => true,
            },
            scan_span(v@, i as int, start as int, match last { Some((a, b)) => Some((a as int, b as int)), None => None })
                == scan_span(v@, 0, 0, None),
        decreases v@.len() - i,
    {
        if v[i] == '/' {
            let is_dot = i - start == 1 && v[start] == '.';
            if i - start > 0 && !is_dot {
                last = Some((start, i));
            }
            start = i + 1;
        }
        i = i + 1;
    }
    let n = v.len();
    let is_dot = n - start == 1 && v[start] == '.';
    if n - start > 0 && !is_dot {
        last = Some((start, n));
    }
    match last {
        Some((a, b)) => {
            let dotdot = b - a == 2 && v[a] == '.' && v[a + 1] == '.';
            proof {
                if b - a == 2 {
                    assert(dotdot <==> v@.subrange(a as int, b as int) =~= seq!['.', '.']);
                } else {
                    assert(v@.subrange(a as int, b as int).len() != 2);
                }
            }
            if dotdot {
                None
            } else {
                Some((a, b))
            }
        },
        None => None,
    }
}

/// The length of the stem of the name `v[a..b]` (see `file_stem`).
fn stem_len(v: &Vec<char>, a: usize, b: usize) -> (k: usize)
    requires
        a <= b <= v@.len(),
    ensures
        k == file_stem(v@.subrange(a as int, b as int)).len(),
        k <= b - a,
        last_dot(v@.subrange(a as int, b as int)) > 0 ==> k == last_dot(v@.subrange(a as int, b as int)),
        last_dot(v@.subrange(a as int, b as int)) <= 0 ==> k == b - a,
{
    let ghost n = v@.subrange(a as int, b as int);
    let mut k = b - a;
    proof {
        assert(n.subrange(0, n.len() as int) =~= n);
    }
    while k > 0 && v[a + k - 1] != '.'
        invariant
            a <= b <= v@.len(),
            n == v@.subrange(a as int, b as int),
            k <= b - a,
            last_dot(n.subrange(0, k as int)) == last_dot(n),
        decreases k,
    {
        proof {
            assert(n.subrange(0, k as int).drop_last() =~= n.subrange(0, k - 1));
        }
        k = k - 1;
    }
    proof {
        lemma_last_dot_bounds(n);
        if k > 0 {
            assert(n.subrange(0, k as int).last() == n[k - 1]);
            assert(last_dot(n.subrange(0, k as int)) == k - 1);
        }
    }
    if k > 1 {
        k - 1
    } else {
        b - a
    }
}

/// The characters `v[a..b]`.
fn slice_chars(v: &Vec<char>, a: usize, b: usize) -> (r: Vec<char>)
    requires
        a <= b <= v@.len(),
    ensures
        r@ == v@.subrange(a as int, b as int),
{
    let mut r: Vec<char> = Vec::new();
    let mut i = a;
    while i < b
        invariant
            a <= i <= b <= v@.len(),
            r@ =~= v@.subrange(a as int, i as int),
        decreases b - i,
    {
        r.push(v[i]);
        i = i + 1;
    }
    r
}

/// The file stem of the file name at the end of a raw B3D texture path, e.g.
/// `gfx\monkeyskin.bmp` gives `monkeyskin`; "unknown" when there is no file name.
pub fn texture_stem(raw: &str) -> (r: String)
    ensures
        r@ == spec_texture_stem(raw@),
{
    let v = clean_chars(raw);
    match file_span_of(&v) {
        None => {
            let mut u: Vec<char> = Vec::new();
            u.push('u');
            u.push('n');
            u.push('k');
            u.push('n');
            u.push('o');
            u.push('w');
            u.push('n');
            string_from_chars(&u)
        },
        Some((a, b)) => {
            let k = stem_len(&v, a, b);
            let stem = slice_chars(&v, a, a + k);
            proof {
                let n = v@.subrange(a as int, b as int);
                assert(file_stem(n) =~= v@.subrange(a as int, a + k)) by {
                    lemma_last_dot_bounds(n);
                }
            }
            string_from_chars(&stem)
        },
    }
}


/// `Path::join` on Unix paths: an absolute `p` replaces `base`; otherwise `p` follows
/// `base`, with a `/` between them unless `base` is empty or already ends in one.
pub open spec fn join_path(base: Seq<char>, p: Seq<char>) -> Seq<char> {
    if p.len() > 0 && p[0] == '/' {
        p
    } else if base.len() == 0 || base.last() == '/' {
        base + p
    } else {
        base.push('/') + p
    }
}

/// `Path::with_extension`: the path cut after the stem of its file name, then `.` and
/// `ext` (nothing more when `ext` is empty); unchanged when it has no file name.
pub open spec fn with_extension(p: Seq<char>, ext: Seq<char>) -> Seq<char> {
    match file_span(p) {
        Some((a, b)) => {
            let kept = p.subrange(0, a + file_stem(p.subrange(a, b)).len());
            if ext.len() == 0 { kept } else { kept.push('.') + ext }
        },
        None => p,
    }
}

/// The texture extensions that are tried, in order.
pub open spec fn known_exts() -> Seq<Seq<char>> {
    seq![
        seq!['b', 'm', 'p'],
        seq!['j', 'p', 'g'],
        seq!['j', 'p', 'e', 'g'],
        seq!['p', 'n', 'g'],
        seq!['t', 'g', 'a'],
    ]
}

/// The code of a character with ASCII upper case letters made lower case.
pub open spec fn ascii_lower_code(c: char) -> u32 {
    if 65 <= (c as u32) <= 90 { ((c as u32) + 32) as u32 } else { c as u32 }
}

/// `str::eq_ignore_ascii_case`: equal after ASCII letters are made lower case.
pub open spec fn eq_ignore_ascii_case(x: Seq<char>, y: Seq<char>) -> bool {
    &&& x.len() == y.len()
    &&& forall|i: int| 0 <= i < x.len() ==> ascii_lower_code(#[trigger] x[i]) == ascii_lower_code(y[i])
}

/// `str::to_lowercase` (Unicode lower case). A function of its argument alone.
pub uninterp spec fn lowercase(s: Seq<char>) -> Seq<char>;

/// All characters are ASCII.
pub open spec fn is_ascii(s: Seq<char>) -> bool {
    forall|i: int| 0 <= i < s.len() ==> (#[trigger] s[i] as u32) < 128
}

/// `l` is `e` with the ASCII letters A-Z made lower case and every other character kept.
pub open spec fn ascii_lowered(e: Seq<char>, l: Seq<char>) -> bool {
    &&& l.len() == e.len()
    &&& forall|i: int| 0 <= i < e.len() ==> (#[trigger] l[i] as u32) == ascii_lower_code(e[i])
}

/// `str::to_lowercase`. Stated: the result is `lowercase(s)`, and on ASCII text it maps
/// A-Z to a-z and keeps every other character (the Unicode lower case of ASCII, as std
/// documents); what it does to other text is left to std's Unicode tables.
#[verifier::external_body]
fn to_lowercase(s: &str) -> (r: String)
    ensures
        r@ == lowercase(s@),
        is_ascii(s@) ==> ascii_lowered(s@, r@),
{
    s.to_lowercase()
}

/// Whether a known extension is skipped in the fallback round because it is the
/// extension that the raw path itself names (ASCII case ignored).
pub open spec fn skips(orig: Option<Seq<char>>, k: Seq<char>) -> bool {
    match orig {
        Some(e) => eq_ignore_ascii_case(e, k),
        None => false,
    }
}

/// The fallback round: `base` with each of the extensions `ks` that is not skipped.
pub open spec fn fallback_candidates(base: Seq<char>, orig: Option<Seq<char>>, ks: Seq<Seq<char>>) -> Seq<Seq<char>>
    decreases ks.len(),
{
    if ks.len() == 0 {
        Seq::empty()
    } else {
        fallback_candidates(base, orig, ks.drop_last()) + (if skips(orig, ks.last()) {
            Seq::empty()
        } else {
            seq![with_extension(base, ks.last())]
        })
    }
}

/// The paths tried for one base path, in order: the path itself; then, when the raw
/// path's own extension `orig` in lower case is a known one, the path with it; then the
/// path with each known extension other than `orig`.
pub open spec fn ext_candidates(base: Seq<char>, orig: Option<Seq<char>>) -> Seq<Seq<char>> {
    let second = match orig {
        Some(e) => if known_exts().contains(lowercase(e)) {
            seq![with_extension(base, lowercase(e))]
        } else {
            Seq::empty()
        },
        None => Seq::empty(),
    };
    seq![base] + second + fallback_candidates(base, orig, known_exts())
}

/// `mods/Stranded II/gfx`, the texture folder of older Stranded II installs.
pub open spec fn legacy_dir() -> Seq<char> {
    seq!['m', 'o', 'd', 's', '/', 'S', 't', 'r', 'a', 'n', 'd', 'e', 'd', ' ', 'I', 'I', '/', 'g', 'f', 'x']
}

/// The paths at which the texture of a raw B3D path is looked for under `dir`, in the
/// order in which the first existing one is taken. With `clean` the cleaned raw path:
/// (1) `dir/clean`; (2) `dir/<file name>`; (3) `dir/<lower-case stem>`; (4) the stem and
/// the lower-case stem in `dir/mods/Stranded II/gfx` and then in `dir/gfx`. Each base
/// path is tried with extensions as `ext_candidates` says.
pub open spec fn texture_candidates_spec(raw: Seq<char>, dir: Seq<char>) -> Seq<Seq<char>> {
    let clean = clean_path(raw);
    match file_name(clean) {
        None => ext_candidates(join_path(dir, clean), None),
        Some(n) => {
            let orig = file_ext(n);
            let stem = file_stem(n);
            let lower = lowercase(stem);
            let d1 = join_path(dir, legacy_dir());
            let d2 = join_path(dir, seq!['g', 'f', 'x']);
            ext_candidates(join_path(dir, clean), orig)
                + ext_candidates(join_path(dir, n), orig)
                + ext_candidates(join_path(dir, lower), orig)
                + ext_candidates(join_path(d1, stem), orig)
                + ext_candidates(join_path(d1, lower), orig)
                + ext_candidates(join_path(d2, stem), orig)
                + ext_candidates(join_path(d2, lower), orig)
        },
    }
}

/// The strings' characters.
pub open spec fn string_views(v: Seq<String>) -> Seq<Seq<char>> {
    v.map_values(|s: String| s@)
}

/// The characters of an optional character list.
pub open spec fn opt_chars(o: Option<Vec<char>>) -> Option<Seq<char>> {
    match o {
        Some(v) => Some(v@),
        None => None,
    }
}

/// `base` joined with `p` (see `join_path`).
fn join_chars(base: &Vec<char>, p: &Vec<char>) -> (r: Vec<char>)
    ensures
        r@ == join_path(base@, p@),
{
    let mut r: Vec<char> = Vec::new();
    if p.len() > 0 && p[0] == '/' {
        r = slice_chars(p, 0, p.len());
        proof {
            assert(p@.subrange(0, p@.len() as int) =~= p@);
        }
        return r;
    }
    r = slice_chars(base, 0, base.len());
    proof {
        assert(base@.subrange(0, base@.len() as int) =~= base@);
    }
    if base.len() > 0 && base[base.len() - 1] != '/' {
        r.push('/');
    }
    let ghost pre = r@;
    let mut i: usize = 0;
    while i < p.len()
        invariant
            i <= p@.len(),
            r@ =~= pre + p@.subrange(0, i as int),
        decreases p@.len() - i,
    {
        r.push(p[i]);
        i = i + 1;
    }
    proof {
        assert(p@.subrange(0, p@.len() as int) =~= p@);
    }
    r
}

/// `p` with its extension set to `ext` (see `with_extension`).
fn with_extension_chars(p: &Vec<char>, ext: &Vec<char>) -> (r: Vec<char>)
    ensures
        r@ == with_extension(p@, ext@),
{
    match file_span_of(p) {
        None => {
            let r = slice_chars(p, 0, p.len());
            proof {
                assert(p@.subrange(0, p@.len() as int) =~= p@);
            }
            r
        },
        Some((a, b)) => {
            let k = stem_len(p, a, b);
            let mut r = slice_chars(p, 0, a + k);
            if ext.len() > 0 {
                r.push('.');
                let ghost pre = r@;
                let mut i: usize = 0;
                while i < ext.len()
                    invariant
                        i <= ext@.len(),
                        r@ =~= pre + ext@.subrange(0, i as int),
                    decreases ext@.len() - i,
                {
                    r.push(ext[i]);
                    i = i + 1;
                }
                proof {
                    assert(ext@.subrange(0, ext@.len() as int) =~= ext@);
                }
            }
            r
        },
    }
}

/// Whether two character lists are equal.
fn chars_eq(x: &Vec<char>, y: &Vec<char>) -> (r: bool)
    ensures
        r == (x@ == y@),
{
    if x.len() != y.len() {
        return false;
    }
    let mut i: usize = 0;
    while i < x.len()
        invariant
            x@.len() == y@.len(),
            i <= x@.len(),
            forall|j: int| 0 <= j < i ==> x@[j] == y@[j],
        decreases x@.len() - i,
    {
        if x[i] != y[i] {
            return false;
        }
        i = i + 1;
    }
    proof {
        assert(x@ =~= y@);
    }
    true
}

/// The code of `c` with ASCII upper case letters made lower case.
fn ascii_lower(c: char) -> (r: u32)
    ensures
        r == ascii_lower_code(c),
{
    let u = c as u32;
    if 65 <= u && u <= 90 { u + 32 } else { u }
}

/// Whether `x` and `y` match with ASCII case ignored.
fn chars_eq_ignore_ascii_case(x: &Vec<char>, y: &Vec<char>) -> (r: bool)
    ensures
        r == eq_ignore_ascii_case(x@, y@),
{
    if x.len() != y.len() {
        return false;
    }
    let mut i: usize = 0;
    while i < x.len()
        invariant
            x@.len() == y@.len(),
            i <= x@.len(),
            forall|j: int| 0 <= j < i ==> ascii_lower_code(#[trigger] x@[j]) == ascii_lower_code(y@[j]),
        decreases x@.len() - i,
    {
        if ascii_lower(x[i]) != ascii_lower(y[i]) {
            return false;
        }
        i = i + 1;
    }
    true
}

/// The known extension at index `i`.
fn known_ext(i: usize) -> (e: Vec<char>)
    requires
        i < 5,
    ensures
        e@ == known_exts()[i as int],
{
    let mut e: Vec<char> = Vec::new();
    if i == 0 {
        e.push('b');
        e.push('m');
        e.push('p');
    } else if i == 1 {
        e.push('j');
        e.push('p');
        e.push('g');
    } else if i == 2 {
        e.push('j');
        e.push('p');
        e.push('e');
        e.push('g');
    } else if i == 3 {
        e.push('p');
        e.push('n');
        e.push('g');
    } else {
        e.push('t');
        e.push('g');
        e.push('a');
    }
    proof {
        assert(e@ =~= known_exts()[i as int]);
    }
    e
}

/// Whether `e` is one of the known extensions.
fn is_known_ext(e: &Vec<char>) -> (r: bool)
    ensures
        r == known_exts().contains(e@),
{
    let mut i: usize = 0;
    while i < 5
        invariant
            i <= 5,
            forall|j: int| 0 <= j < i ==> known_exts()[j] != e@,
        decreases 5 - i,
    {
        let k = known_ext(i);
        if chars_eq(&k, e) {
            proof {
                assert(known_exts()[i as int] == e@);
            }
            return true;
        }
        i = i + 1;
    }
    proof {
        assert(known_exts().len() == 5);
        if known_exts().contains(e@) {
            let j = choose|j: int| 0 <= j < known_exts().len() && known_exts()[j] == e@;
            assert(false);
        }
    }
    false
}

/// The paths tried for one base path cover it: the base path comes first, the base path
/// with each known extension is among them, and every one of them is one of these.
pub open spec fn covers_extensions(base: Seq<char>, cands: Seq<Seq<char>>) -> bool {
    &&& cands.len() > 0
    &&& cands[0] == base
    &&& forall|k: int| 0 <= k < known_exts().len() ==> cands.contains(#[trigger] with_extension(base, known_exts()[k]))
    &&& forall|c: Seq<char>| #[trigger] cands.contains(c) ==> c == base
        || exists|k: int| 0 <= k < known_exts().len() && c == with_extension(base, known_exts()[k])
}

/// What the fallback round holds: the base path with each extension of `ks` that is not
/// skipped.
proof fn lemma_fallback_members(base: Seq<char>, o: Option<Seq<char>>, ks: Seq<Seq<char>>)
    ensures
        forall|j: int| 0 <= j < ks.len() && !skips(o, ks[j]) ==> fallback_candidates(base, o, ks).contains(
            #[trigger] with_extension(base, ks[j]),
        ),
        forall|c: Seq<char>| #[trigger] fallback_candidates(base, o, ks).contains(c) ==> exists|j: int|
            0 <= j < ks.len() && c == with_extension(base, ks[j]),
    decreases ks.len(),
{
    if ks.len() > 0 {
        let d = ks.drop_last();
        lemma_fallback_members(base, o, d);
        let prev = fallback_candidates(base, o, d);
        let tail: Seq<Seq<char>> = if skips(o, ks.last()) { Seq::empty() } else { seq![with_extension(base, ks.last())] };
        let all = fallback_candidates(base, o, ks);
        assert(all == prev + tail);
        assert forall|j: int| 0 <= j < ks.len() && !skips(o, ks[j]) implies all.contains(#[trigger] with_extension(base, ks[j])) by {
            if j < ks.len() - 1 {
                assert(d[j] == ks[j]);
                let t = choose|t: int| 0 <= t < prev.len() && prev[t] == with_extension(base, d[j]);
                assert(all[t] == prev[t]);
            } else {
                assert(all[prev.len() as int] == with_extension(base, ks[j]));
            }
        }
        assert forall|c: Seq<char>| #[trigger] all.contains(c) implies exists|j: int| 0 <= j < ks.len() && c == with_extension(base, ks[j]) by {
            let t = choose|t: int| 0 <= t < all.len() && all[t] == c;
            if t < prev.len() {
                assert(prev[t] == c);
                assert(prev.contains(c));
                let j = choose|j: int| 0 <= j < d.len() && c == with_extension(base, d[j]);
                assert(d[j] == ks[j]);
            } else {
                assert(c == with_extension(base, ks[ks.len() - 1]));
            }
        }
    }
}

/// An extension that matches a known one with ASCII case ignored is ASCII, and when its
/// lower case is its ASCII lower case, that lower case is the known extension.
proof fn lemma_skipped_is_lowered(e: Seq<char>, k: int)
    requires
        0 <= k < known_exts().len(),
        eq_ignore_ascii_case(e, known_exts()[k]),
    ensures
        is_ascii(e),
        is_ascii(e) && ascii_lowered(e, lowercase(e)) ==> lowercase(e) == known_exts()[k],
{
    let kk = known_exts()[k];
    assert forall|i: int| 0 <= i < kk.len() implies ascii_lower_code(#[trigger] kk[i]) == kk[i] as u32 && (kk[i] as u32) < 128 by {
        assert(known_exts()[0] == seq!['b', 'm', 'p']);
        assert(known_exts()[1] == seq!['j', 'p', 'g']);
        assert(known_exts()[2] == seq!['j', 'p', 'e', 'g']);
        assert(known_exts()[3] == seq!['p', 'n', 'g']);
        assert(known_exts()[4] == seq!['t', 'g', 'a']);
    }
    assert forall|i: int| 0 <= i < e.len() implies (#[trigger] e[i] as u32) < 128 by {
        assert(ascii_lower_code(e[i]) == ascii_lower_code(kk[i]));
    }
    if ascii_lowered(e, lowercase(e)) {
        let l = lowercase(e);
        assert forall|i: int| 0 <= i < l.len() implies #[trigger] l[i] == kk[i] by {
            assert(l[i] as u32 == ascii_lower_code(e[i]));
            assert(ascii_lower_code(e[i]) == ascii_lower_code(kk[i]));
            let u = kk[i] as u32;
            vstd::utf8::char_u32_cast(l[i], u);
            vstd::utf8::char_u32_cast(kk[i], u);
        }
        assert(l =~= kk);
    }
}

/// The paths tried for one base path cover it (see `covers_extensions`), given that the
/// lower case of an ASCII extension is its ASCII lower case.
proof fn lemma_ext_candidates_cover(base: Seq<char>, o: Option<Seq<char>>)
    requires
        o matches Some(e) ==> (is_ascii(e) ==> ascii_lowered(e, lowercase(e))),
    ensures
        covers_extensions(base, ext_candidates(base, o)),
{
    let ks = known_exts();
    lemma_fallback_members(base, o, ks);
    let second = match o {
        Some(e) => if ks.contains(lowercase(e)) { seq![with_extension(base, lowercase(e))] } else { Seq::<Seq<char>>::empty() },
        None => Seq::<Seq<char>>::empty(),
    };
    let fb = fallback_candidates(base, o, ks);
    let cands = ext_candidates(base, o);
    assert(cands == seq![base] + second + fb);
    assert forall|k: int| 0 <= k < ks.len() implies cands.contains(#[trigger] with_extension(base, ks[k])) by {
        let w = with_extension(base, ks[k]);
        if !skips(o, ks[k]) {
            assert(fb.contains(w));
            let t = choose|t: int| 0 <= t < fb.len() && fb[t] == w;
            assert(cands[1 + second.len() + t] == w);
        } else {
            let e = o->0;
            lemma_skipped_is_lowered(e, k);
            assert(lowercase(e) == ks[k]);
            assert(ks.contains(lowercase(e)));
            assert(cands[1] == w);
        }
    }
    assert forall|c: Seq<char>| #[trigger] cands.contains(c) implies c == base
        || exists|k: int| 0 <= k < ks.len() && c == with_extension(base, ks[k]) by {
        let t = choose|t: int| 0 <= t < cands.len() && cands[t] == c;
        if t == 0 {
        } else if t < 1 + second.len() {
            let e = o->0;
            let j = choose|j: int| 0 <= j < ks.len() && ks[j] == lowercase(e);
            assert(c == with_extension(base, ks[j]));
        } else {
            assert(fb[t - 1 - second.len()] == c);
            assert(fb.contains(c));
        }
    }
}

/// Appends the paths tried for `base` (see `ext_candidates`).
fn push_ext_candidates(out: &mut Vec<String>, base: &Vec<char>, orig: &Option<Vec<char>>)
    ensures
        string_views(final(out)@) == string_views(old(out)@) + ext_candidates(base@, opt_chars(*orig)),
        covers_extensions(base@, ext_candidates(base@, opt_chars(*orig))),
{
    let ghost start = string_views(out@);
    let ghost o = opt_chars(*orig);
    out.push(string_from_chars(base));
    let ghost second: Seq<Seq<char>> = Seq::empty();
    match orig {
        Some(e) => {
            let lower = chars_of(to_lowercase(string_from_chars(e).as_str()).as_str());
            if is_known_ext(&lower) {
                let c = with_extension_chars(base, &lower);
                out.push(string_from_chars(&c));
                proof {
                    second = seq![with_extension(base@, lowercase(e@))];
                }
            }
        },
        None => {},
    }
    proof {
        assert(string_views(out@) =~= start + seq![base@] + second);
    }
    let ghost mid = string_views(out@);
    let mut i: usize = 0;
    while i < 5
        invariant
            i <= 5,
            o == opt_chars(*orig),
            string_views(out@) == mid + fallback_candidates(base@, o, known_exts().take(i as int)),
        decreases 5 - i,
    {
        let k = known_ext(i);
        let skip = match orig {
            Some(e) => chars_eq_ignore_ascii_case(e, &k),
            None => false,
        };
        let ghost before = string_views(out@);
        if !skip {
            let c = with_extension_chars(base, &k);
            out.push(string_from_chars(&c));
        }
        proof {
            let ks = known_exts().take(i + 1);
            assert(ks.drop_last() =~= known_exts().take(i as int));
            assert(ks.last() == known_exts()[i as int]);
            if skip {
                assert(string_views(out@) =~= before);
            } else {
                assert(string_views(out@) =~= before.push(with_extension(base@, k@)));
            }
        }
        i = i + 1;
    }
    proof {
        assert(known_exts().take(5) =~= known_exts());
        lemma_ext_candidates_cover(base@, o);
    }
}

/// The characters of an optional string.
pub open spec fn opt_str(o: Option<&str>) -> Option<Seq<char>> {
    match o {
        Some(e) => Some(e@),
        None => None,
    }
}

/// The paths at which a texture is looked for at one base path, in order, given the
/// extension that the raw path names (see `ext_candidates`). They cover the base path:
/// it comes first, it is there with each known extension, and nothing else is there;
/// so the texture at `base` is found exactly when the base path or one of these exists.
pub fn extension_candidates(base: &str, orig: Option<&str>) -> (r: Vec<String>)
    ensures
        string_views(r@) == ext_candidates(base@, opt_str(orig)),
        covers_extensions(base@, string_views(r@)),
{
    let b = chars_of(base);
    let o: Option<Vec<char>> = match orig {
        Some(e) => Some(chars_of(e)),
        None => None,
    };
    let mut out: Vec<String> = Vec::new();
    push_ext_candidates(&mut out, &b, &o);
    proof {
        assert(opt_chars(o) == opt_str(orig));
        assert(string_views(out@) =~= ext_candidates(base@, opt_str(orig)));
    }
    out
}

/// The paths at which the texture of a raw B3D path is looked for under `game_dir`, in
/// order (see `texture_candidates_spec`); the texture is the first of them that exists.
pub fn texture_candidates(raw_path: &str, game_dir: &str) -> (r: Vec<String>)
    ensures
        string_views(r@) == texture_candidates_spec(raw_path@, game_dir@),
{
    let clean = clean_chars(raw_path);
    let dir = chars_of(game_dir);
    let mut out: Vec<String> = Vec::new();
    match file_span_of(&clean) {
        None => {
            let full = join_chars(&dir, &clean);
            push_ext_candidates(&mut out, &full, &None);
            proof {
                assert(string_views(out@) =~= texture_candidates_spec(raw_path@, game_dir@));
            }
        },
        Some((a, b)) => {
            let ghost n = clean@.subrange(a as int, b as int);
            let k = stem_len(&clean, a, b);
            let orig: Option<Vec<char>> = if a + k < b {
                Some(slice_chars(&clean, a + k + 1, b))
            } else {
                None
            };
            proof {
                lemma_last_dot_bounds(n);
                if a + k < b {
                    assert(clean@.subrange(a + k + 1, b as int) =~= n.subrange(k + 1, n.len() as int));
                }
                assert(opt_chars(orig) == file_ext(n));
            }
            let name = slice_chars(&clean, a, b);
            let stem = slice_chars(&clean, a, a + k);
            proof {
                assert(stem@ =~= file_stem(n));
            }
            let lower = chars_of(to_lowercase(string_from_chars(&stem).as_str()).as_str());
            let mut legacy: Vec<char> = Vec::new();
            push_str(&mut legacy, "mods/Stranded II/gfx");
            let mut gfx: Vec<char> = Vec::new();
            push_str(&mut gfx, "gfx");
            proof {
                reveal_strlit("mods/Stranded II/gfx");
                reveal_strlit("gfx");
                assert(legacy@ =~= legacy_dir());
                assert(gfx@ =~= seq!['g', 'f', 'x']);
            }
            let d1 = join_chars(&dir, &legacy);
            let d2 = join_chars(&dir, &gfx);
            let ghost s0 = string_views(out@);
            push_ext_candidates(&mut out, &join_chars(&dir, &clean), &orig);
            push_ext_candidates(&mut out, &join_chars(&dir, &name), &orig);
            push_ext_candidates(&mut out, &join_chars(&dir, &lower), &orig);
            push_ext_candidates(&mut out, &join_chars(&d1, &stem), &orig);
            push_ext_candidates(&mut out, &join_chars(&d1, &lower), &orig);
            push_ext_candidates(&mut out, &join_chars(&d2, &stem), &orig);
            push_ext_candidates(&mut out, &join_chars(&d2, &lower), &orig);
            proof {
                assert(s0 =~= Seq::<Seq<char>>::empty());
                assert(string_views(out@) =~= texture_candidates_spec(raw_path@, game_dir@));
            }
        },
    }
    out
}


/// The index of the first candidate that exists, given for each candidate in order
/// whether it exists: the texture that `texture_candidates` leads to.
pub fn first_existing(exists: &[bool]) -> (r: Option<usize>)
    ensures
        match r {
            Some(i) => i < exists@.len() && exists@[i as int] && forall|j: int| 0 <= j < i ==> !exists@[j],
            None => forall|j: int| 0 <= j < exists@.len() ==> !exists@[j],
        },
{
    let mut i: usize = 0;
    while i < exists.len()
        invariant
            i <= exists@.len(),
            forall|j: int| 0 <= j < i ==> !exists@[j],
        decreases exists@.len() - i,
    {
        if exists[i] {
            return Some(i);
        }
        i = i + 1;
    }
    None
}


/// The PNG encoding that `image` makes of a file's bytes decoded in the format that the
/// extension `ext` names (`None` when the extension names no format or the bytes do not
/// decode or encode). A function of the bytes and the extension alone.
pub uninterp spec fn png_of(file: Seq<u8>, ext: Seq<char>) -> Option<Seq<u8>>;

/// `image::ImageFormat::from_extension`, `image::load_from_memory_with_format`, then
/// `DynamicImage::write_to` with `ImageFormat::Png`. Stated: the result is
/// `png_of(file, ext)`; which formats decode and what PNG bytes come out is left to the
/// `image` crate.
#[verifier::external_body]
fn convert_to_png(file: &[u8], ext: &str) -> (r: Option<Vec<u8>>)
    ensures
        match r {
            Some(v) => png_of(file@, ext@) == Some(v@),
            None => png_of(file@, ext@) is None,
        },
{
    let format = image::ImageFormat::from_extension(ext)?;
    let img = image::load_from_memory_with_format(file, format).ok()?;
    let mut out = std::io::Cursor::new(Vec::new());
    img.write_to(&mut out, image::ImageFormat::Png).ok()?;
    Some(out.into_inner())
}

/// The extension of the file name at the end of a `/`-separated path (see `file_ext`).
pub open spec fn path_ext(path: Seq<char>) -> Option<Seq<char>> {
    match file_name(path) {
        Some(n) => file_ext(n),
        None => None,
    }
}

/// The PNG of a texture file, as `image::open` would read the file at `path` and the
/// texture cache stores it: the file's bytes decoded in the format that the path's
/// extension names, encoded as PNG; none when the path has no (or an empty) extension,
/// or the bytes do not convert.
pub open spec fn spec_texture_png(file: Seq<u8>, path: Seq<char>) -> Option<Seq<u8>> {
    match path_ext(path) {
        Some(e) => if e.len() > 0 { png_of(file, e) } else { None },
        None => None,
    }
}

/// Converts the bytes of the texture file found at `path` to PNG (see `spec_texture_png`).
pub fn texture_to_png(file: &[u8], path: &str) -> (r: Option<Vec<u8>>)
    ensures
        match r {
            Some(v) => spec_texture_png(file@, path@) == Some(v@),
            None => spec_texture_png(file@, path@) is None,
        },
{
    let v = chars_of(path);
    match file_span_of(&v) {
        None => None,
        Some((a, b)) => {
            let ghost n = v@.subrange(a as int, b as int);
            let k = stem_len(&v, a, b);
            proof {
                lemma_last_dot_bounds(n);
            }
            if k >= b - a || b - a - k == 1 {
                // no extension, or an empty one
                proof {
                    if a + k < b {
                        assert(n.subrange(k + 1, n.len() as int).len() == 0);
                    }
                }
                return None;
            }
            let ext = slice_chars(&v, a + k + 1, b);
            proof {
                assert(ext@ =~= n.subrange(k + 1, n.len() as int));
                assert(path_ext(path@) == Some(ext@));
            }
            let e = string_from_chars(&ext);
            convert_to_png(file, e.as_str())
        },
    }
}

} // verus!
