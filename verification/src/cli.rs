//! Command-line arguments: which options and inputs a command line holds, and where it
//! stops (help, or an error). Option values are kept as text; turning material and
//! color values into numbers is left to the caller.
use vstd::prelude::*;
use vstd::string::StringExecFns;
use crate::text::{chars_of, push_str, string_from_chars};

verus! {

/// One option or input of a command line, in the order given.
#[derive(Debug)]
pub enum ArgItem {
    /// `-o` / `--out DIR`
    Out(String),
    /// `-c` / `--context DIR`
    Context(String),
    /// `-m` / `--material PARAMS`
    Material(String),
    /// `-C` / `--color R,G,B[,A]`
    Color(String),
    /// `-b` / `--glb`
    Glb,
    /// An input file or directory.
    Input(String),
}

/// How a command line ends: all of it read, a request for help, or an error message.
#[derive(Debug)]
pub enum ArgEnd {
    Complete,
    Help,
    Error(String),
}

/// `ArgItem` with its texts as characters.
pub ghost enum ArgItemModel {
    Out(Seq<char>),
    Context(Seq<char>),
    Material(Seq<char>),
    Color(Seq<char>),
    Glb,
    Input(Seq<char>),
}

/// `ArgEnd` with its message as characters.
pub ghost enum ArgEndModel {
    Complete,
    Help,
    Error(Seq<char>),
}

impl View for ArgItem {
    type V = ArgItemModel;

    open spec fn view(&self) -> ArgItemModel {
        match self {
            ArgItem::Out(s) => ArgItemModel::Out(s@),
            ArgItem::Context(s) => ArgItemModel::Context(s@),
            ArgItem::Material(s) => ArgItemModel::Material(s@),
            ArgItem::Color(s) => ArgItemModel::Color(s@),
            ArgItem::Glb => ArgItemModel::Glb,
            ArgItem::Input(s) => ArgItemModel::Input(s@),
        }
    }
}

impl View for ArgEnd {
    type V = ArgEndModel;

    open spec fn view(&self) -> ArgEndModel {
        match self {
            ArgEnd::Complete => ArgEndModel::Complete,
            ArgEnd::Help => ArgEndModel::Help,
            ArgEnd::Error(s) => ArgEndModel::Error(s@),
        }
    }
}

/// `-h`, `--help` or `-?`.
pub open spec fn is_help(a: Seq<char>) -> bool {
    a == "-h"@ || a == "--help"@ || a == "-?"@
}

/// The options that take a value: 0 for `-o`, 1 for `-c`, 2 for `-m`, 3 for `-C`.
pub open spec fn value_option(a: Seq<char>) -> Option<int> {
    if a == "-o"@ || a == "--out"@ {
        Some(0)
    } else if a == "-c"@ || a == "--context"@ {
        Some(1)
    } else if a == "-m"@ || a == "--material"@ {
        Some(2)
    } else if a == "-C"@ || a == "--color"@ {
        Some(3)
    } else {
        None
    }
}

/// The message for a value option given last, with nothing after it.
pub open spec fn missing_value_message(k: int) -> Seq<char> {
    if k == 0 {
        "-o/--out requires a value"@
    } else if k == 1 {
        "-c/--context requires a value"@
    } else if k == 2 {
        "-m/--material requires a value"@
    } else {
        "-C/--color requires a value"@
    }
}

/// The item of a value option with its value.
pub open spec fn value_item(k: int, v: Seq<char>) -> ArgItemModel {
    if k == 0 {
        ArgItemModel::Out(v)
    } else if k == 1 {
        ArgItemModel::Context(v)
    } else if k == 2 {
        ArgItemModel::Material(v)
    } else {
        ArgItemModel::Color(v)
    }
}

/// The arguments `raw[i..]` read in order, given whether an input came before: the items
/// up to where reading stops, and how it stops. Help, a value option without a value and
/// an unknown option (any other argument that starts with `-`) stop at once; at the end,
/// a command line without inputs is an error.
pub open spec fn scan_spec(raw: Seq<Seq<char>>, i: int, has_input: bool) -> (Seq<ArgItemModel>, ArgEndModel)
    decreases raw.len() - i,
{
    if i >= raw.len() {
        if has_input {
            (Seq::empty(), ArgEndModel::Complete)
        } else {
            (Seq::empty(), ArgEndModel::Error("no input files or directories specified"@))
        }
    } else {
        let a = raw[i];
        if is_help(a) {
            (Seq::empty(), ArgEndModel::Help)
        } else if value_option(a) is Some {
            let k = value_option(a)->0;
            if i + 1 >= raw.len() {
                (Seq::empty(), ArgEndModel::Error(missing_value_message(k)))
            } else {
                let rest = scan_spec(raw, i + 2, has_input);
                (seq![value_item(k, raw[i + 1])] + rest.0, rest.1)
            }
        } else if a == "-b"@ || a == "--glb"@ {
            let rest = scan_spec(raw, i + 1, has_input);
            (seq![ArgItemModel::Glb] + rest.0, rest.1)
        } else if a.len() > 0 && a[0] == '-' {
            (Seq::empty(), ArgEndModel::Error("unknown option: "@ + a))
        } else {
            let rest = scan_spec(raw, i + 1, true);
            (seq![ArgItemModel::Input(a)] + rest.0, rest.1)
        }
    }
}

/// The arguments of a command line as characters.
pub open spec fn arg_views(raw: Seq<String>) -> Seq<Seq<char>> {
    raw.map_values(|s: String| s@)
}

/// The items of a scan.
pub open spec fn item_views(items: Seq<ArgItem>) -> Seq<ArgItemModel> {
    items.map_values(|x: ArgItem| x@)
}

/// Whether the characters of `a` are those of `lit`.
fn is_lit(a: &Vec<char>, lit: &str) -> (r: bool)
    ensures
        r == (a@ == lit@),
{
    let l = chars_of(lit);
    if a.len() != l.len() {
        return false;
    }
    let mut i: usize = 0;
    while i < a.len()
        invariant
            a@.len() == l@.len(),
            l@ == lit@,
            i <= a@.len(),
            forall|j: int| 0 <= j < i ==> a@[j] == l@[j],
        decreases a@.len() - i,
    {
        if a[i] != l[i] {
            return false;
        }
        i = i + 1;
    }
    proof {
        assert(a@ =~= l@);
    }
    true
}

/// The value option an argument names (see `value_option`).
fn value_option_of(a: &Vec<char>) -> (r: Option<u8>)
    ensures
        match r {
            Some(k) => value_option(a@) == Some(k as int),
            None => value_option(a@) is None,
        },
{
    if is_lit(a, "-o") || is_lit(a, "--out") {
        Some(0)
    } else if is_lit(a, "-c") || is_lit(a, "--context") {
        Some(1)
    } else if is_lit(a, "-m") || is_lit(a, "--material") {
        Some(2)
    } else if is_lit(a, "-C") || is_lit(a, "--color") {
        Some(3)
    } else {
        None
    }
}

/// A string holding the characters of `lit`.
fn lit_string(lit: &str) -> (s: String)
    ensures
        s@ == lit@,
{
    let mut v: Vec<char> = Vec::new();
    push_str(&mut v, lit);
    string_from_chars(&v)
}

/// Reads a command line (`raw[0]` is the program's name): the options and inputs in
/// order, up to where reading stops, and how it stops (see `scan_spec`).
pub fn scan_args(raw: &[String]) -> (r: (Vec<ArgItem>, ArgEnd))
    ensures
        (item_views(r.0@), r.1@) == scan_spec(arg_views(raw@), 1, false),
{
    let ghost rs = arg_views(raw@);
    let mut items: Vec<ArgItem> = Vec::new();
    let mut has_input = false;
    let mut i: usize = 1;
    while i < raw.len()
        invariant
            rs == arg_views(raw@),
            1 <= i,
            item_views(items@) + scan_spec(rs, i as int, has_input).0 == scan_spec(rs, 1, false).0,
            scan_spec(rs, i as int, has_input).1 == scan_spec(rs, 1, false).1,
        decreases raw@.len() - i,
    {
        let a = chars_of(raw[i].as_str());
        let ghost before = item_views(items@);
        assert(a@ == rs[i as int]);
        if is_lit(&a, "-h") || is_lit(&a, "--help") || is_lit(&a, "-?") {
            return (items, ArgEnd::Help);
        }
        match value_option_of(&a) {
            Some(k) => {
                if i + 1 >= raw.len() {
                    let msg = if k == 0 {
                        lit_string("-o/--out requires a value")
                    } else if k == 1 {
                        lit_string("-c/--context requires a value")
                    } else if k == 2 {
                        lit_string("-m/--material requires a value")
                    } else {
                        lit_string("-C/--color requires a value")
                    };
                    proof {
                        assert(item_views(items@) =~= item_views(items@) + Seq::<ArgItemModel>::empty());
                    }
                    return (items, ArgEnd::Error(msg));
                }
                let v = raw[i + 1].clone();
                assert(v@ == rs[i + 1]);
                let item = if k == 0 {
                    ArgItem::Out(v)
                } else if k == 1 {
                    ArgItem::Context(v)
                } else if k == 2 {
                    ArgItem::Material(v)
                } else {
                    ArgItem::Color(v)
                };
                items.push(item);
                proof {
                    assert(item_views(items@) =~= before.push(value_item(k as int, rs[i + 1])));
                    let rest = scan_spec(rs, i + 2, has_input);
                    assert(scan_spec(rs, i as int, has_input).0 =~= seq![value_item(k as int, rs[i + 1])] + rest.0);
                    assert(before + scan_spec(rs, i as int, has_input).0 =~= item_views(items@) + rest.0);
                }
                i = i + 2;
            },
            None => {
                if is_lit(&a, "-b") || is_lit(&a, "--glb") {
                    items.push(ArgItem::Glb);
                    proof {
                        assert(item_views(items@) =~= before.push(ArgItemModel::Glb));
                        let rest = scan_spec(rs, i + 1, has_input);
                        assert(before + scan_spec(rs, i as int, has_input).0 =~= item_views(items@) + rest.0);
                    }
                } else if a.len() > 0 && a[0] == '-' {
                    let mut m: Vec<char> = Vec::new();
                    push_str(&mut m, "unknown option: ");
                    let ghost pre = m@;
                    let mut j: usize = 0;
                    while j < a.len()
                        invariant
                            j <= a@.len(),
                            m@ =~= pre + a@.subrange(0, j as int),
                        decreases a@.len() - j,
                    {
                        m.push(a[j]);
                        j = j + 1;
                    }
                    proof {
                        assert(a@.subrange(0, a@.len() as int) =~= a@);
                        assert(item_views(items@) =~= item_views(items@) + Seq::<ArgItemModel>::empty());
                    }
                    return (items, ArgEnd::Error(string_from_chars(&m)));
                } else {
                    items.push(ArgItem::Input(raw[i].clone()));
                    proof {
                        assert(item_views(items@) =~= before.push(ArgItemModel::Input(rs[i as int])));
                        let rest = scan_spec(rs, i + 1, true);
                        assert(before + scan_spec(rs, i as int, has_input).0 =~= item_views(items@) + rest.0);
                    }
                    has_input = true;
                }
                i = i + 1;
            },
        }
    }
    proof {
        assert(item_views(items@) =~= item_views(items@) + Seq::<ArgItemModel>::empty());
    }
    if has_input {
        (items, ArgEnd::Complete)
    } else {
        (items, ArgEnd::Error(lit_string("no input files or directories specified")))
    }
}


/// The index of the first `c` in `s`, if any.
pub open spec fn first_index(s: Seq<char>, c: char) -> Option<int>
    decreases s.len(),
{
    if s.len() == 0 {
        None
    } else {
        match first_index(s.drop_last(), c) {
            Some(i) => Some(i),
            None => if s.last() == c { Some(s.len() - 1) } else { None },
        }
    }
}

/// `str::split_once`: the text before and after the first `c`.
pub open spec fn split_once(s: Seq<char>, c: char) -> Option<(Seq<char>, Seq<char>)> {
    match first_index(s, c) {
        Some(i) => Some((s.subrange(0, i), s.subrange(i + 1, s.len() as int))),
        None => None,
    }
}

/// `str::split`: the pieces of `s` between the separators `c` (one more than there are
/// separators).
pub open spec fn split_on(s: Seq<char>, c: char) -> Seq<Seq<char>>
    decreases s.len(),
{
    if s.len() == 0 {
        seq![Seq::empty()]
    } else {
        let r = split_on(s.drop_last(), c);
        if s.last() == c {
            r.push(Seq::empty())
        } else {
            r.update(r.len() - 1, r.last().push(s.last()))
        }
    }
}

/// The two numbers of a material option, as text.
#[derive(Debug, PartialEq, Eq)]
pub enum MaterialText {
    /// `<metallic>m<roughness>r`: the text before the first `m`, and the rest without its
    /// final `r`.
    Suffixed(String, String),
    /// `<metallic>,<roughness>`: the text before and after the first `,` (not trimmed).
    Comma(String, String),
    /// Neither form.
    Invalid,
}

/// The reading of a material option: the `m…r` form when the text has an `m` and the
/// rest after the first `m` ends in `r`; otherwise the `,` form when it has a `,`;
/// otherwise neither.
pub open spec fn spec_material_text(s: Seq<char>) -> (Seq<char>, Seq<char>, int) {
    match split_once(s, 'm') {
        Some((m, rest)) if rest.len() > 0 && rest.last() == 'r' => (m, rest.drop_last(), 0),
        _ => match split_once(s, ',') {
            Some((m, r)) => (m, r, 1),
            None => (Seq::empty(), Seq::empty(), 2),
        },
    }
}

/// The pieces of a color option: its `,`-separated pieces when there are three or four,
/// none otherwise.
pub open spec fn spec_color_parts(s: Seq<char>) -> Option<Seq<Seq<char>>> {
    let parts = split_on(s, ',');
    if 3 <= parts.len() <= 4 { Some(parts) } else { None }
}

/// The first index of `c` in `v` (see `first_index`).
fn first_index_of(v: &Vec<char>, c: char) -> (r: Option<usize>)
    ensures
        match r {
            Some(i) => first_index(v@, c) == Some(i as int) && i < v@.len(),
            None => first_index(v@, c) is None,
        },
{
    let mut i: usize = 0;
    while i < v.len()
        invariant
            i <= v@.len(),
            first_index(v@.subrange(0, i as int), c) is None,
        decreases v@.len() - i,
    {
        proof {
            assert(v@.subrange(0, i + 1).drop_last() =~= v@.subrange(0, i as int));
        }
        if v[i] == c {
            proof {
                lemma_first_index_prefix(v@, c, i as int + 1);
            }
            return Some(i);
        }
        i = i + 1;
    }
    proof {
        assert(v@.subrange(0, v@.len() as int) =~= v@);
    }
    None
}

/// A first occurrence within a prefix is the first occurrence in the whole.
proof fn lemma_first_index_prefix(s: Seq<char>, c: char, j: int)
    requires
        0 <= j <= s.len(),
        first_index(s.subrange(0, j), c) is Some,
    ensures
        first_index(s, c) == first_index(s.subrange(0, j), c),
    decreases s.len() - j,
{
    if j < s.len() {
        assert(s.subrange(0, j + 1).drop_last() =~= s.subrange(0, j));
        lemma_first_index_prefix(s, c, j + 1);
    } else {
        assert(s.subrange(0, j) =~= s);
    }
}

/// The characters `v[a..b]` as a string.
fn slice_string(v: &Vec<char>, a: usize, b: usize) -> (r: String)
    requires
        a <= b <= v@.len(),
    ensures
        r@ == v@.subrange(a as int, b as int),
{
    let mut out: Vec<char> = Vec::new();
    let mut i = a;
    while i < b
        invariant
            a <= i <= b <= v@.len(),
            out@ =~= v@.subrange(a as int, i as int),
        decreases b - i,
    {
        out.push(v[i]);
        i = i + 1;
    }
    string_from_chars(&out)
}

/// Reads a material option (see `spec_material_text`); turning the pieces into numbers
/// is left to the caller.
pub fn material_text(s: &str) -> (r: MaterialText)
    ensures
        ({
            let (m, x, form) = spec_material_text(s@);
            match r {
                MaterialText::Suffixed(a, b) => form == 0 && a@ == m && b@ == x,
                MaterialText::Comma(a, b) => form == 1 && a@ == m && b@ == x,
                MaterialText::Invalid => form == 2,
            }
        }),
{
    let v = chars_of(s);
    let n = v.len();
    match first_index_of(&v, 'm') {
        Some(i) => {
            if i + 1 < n && v[n - 1] == 'r' {
                let a = slice_string(&v, 0, i);
                let b = slice_string(&v, i + 1, n - 1);
                proof {
                    let rest = v@.subrange(i + 1, n as int);
                    assert(rest.drop_last() =~= v@.subrange(i + 1, n - 1));
                }
                return MaterialText::Suffixed(a, b);
            }
        },
        None => {},
    }
    match first_index_of(&v, ',') {
        Some(i) => MaterialText::Comma(slice_string(&v, 0, i), slice_string(&v, i + 1, n)),
        None => MaterialText::Invalid,
    }
}

/// The `,`-separated pieces of a color option, when there are three or four (see
/// `spec_color_parts`); turning them into numbers is left to the caller.
pub fn color_parts(s: &str) -> (r: Option<Vec<String>>)
    ensures
        match r {
            Some(ps) => spec_color_parts(s@) == Some(ps@.map_values(|p: String| p@)),
            None => spec_color_parts(s@) is None,
        },
{
    let v = chars_of(s);
    let mut parts: Vec<Vec<char>> = Vec::new();
    parts.push(Vec::new());
    let mut i: usize = 0;
    while i < v.len()
        invariant
            i <= v@.len(),
            parts@.len() >= 1,
            parts@.map_values(|p: Vec<char>| p@) =~= split_on(v@.subrange(0, i as int), ','),
        decreases v@.len() - i,
    {
        let ghost before = parts@.map_values(|p: Vec<char>| p@);
        proof {
            assert(v@.subrange(0, i + 1).drop_last() =~= v@.subrange(0, i as int));
            assert(v@.subrange(0, i + 1).last() == v@[i as int]);
        }
        if v[i] == ',' {
            parts.push(Vec::new());
            proof {
                assert(parts@.map_values(|p: Vec<char>| p@) =~= before.push(Seq::empty()));
            }
        } else {
            let last = parts.len() - 1;
            let mut cur = parts.pop().unwrap();
            cur.push(v[i]);
            parts.push(cur);
            proof {
                assert(parts@.map_values(|p: Vec<char>| p@) =~= before.update(last as int, before.last().push(v@[i as int])));
            }
        }
        i = i + 1;
    }
    proof {
        assert(v@.subrange(0, v@.len() as int) =~= v@);
    }
    if parts.len() < 3 || parts.len() > 4 {
        return None;
    }
    let mut out: Vec<String> = Vec::new();
    let mut k: usize = 0;
    while k < parts.len()
        invariant
            k <= parts@.len(),
            out@.map_values(|p: String| p@) =~= parts@.map_values(|p: Vec<char>| p@).take(k as int),
        decreases parts@.len() - k,
    {
        out.push(string_from_chars(&parts[k]));
        proof {
            assert(parts@.map_values(|p: Vec<char>| p@).take(k + 1) =~= parts@.map_values(|p: Vec<char>| p@).take(k as int).push(parts@[k as int]@));
        }
        k = k + 1;
    }
    proof {
        assert(parts@.map_values(|p: Vec<char>| p@).take(parts@.len() as int) =~= parts@.map_values(|p: Vec<char>| p@));
    }
    Some(out)
}

} // verus!
