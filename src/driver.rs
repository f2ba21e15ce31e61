//! Decisions of the minification pipeline: which files to take, how to pair
//! a glue script with its module, and what to report of the sizes.
use vstd::prelude::*;

use crate::text::{chars_of, string_of};

verus! {

/// The kinds of file the pipeline handles.
#[derive(Clone, Copy, Debug, PartialEq, Eq, Structural)]
pub enum FileKind {
    Html,
    Css,
    Js,
    Wasm,
}

/// The position of the dot that starts the extension of `name`: the last
/// dot, unless it is the first character.
pub open spec fn ext_dot(name: Seq<char>) -> Option<int> {
    if exists|i: int| 0 < i < name.len() && name[i] == '.' {
        Some(choose|i: int| 0 < i < name.len() && name[i] == '.' && forall|j: int| i < j < name.len() ==> name[j] != '.')
    } else {
        None
    }
}

/// The extension of `name`, if it has one.
pub open spec fn extension(name: Seq<char>) -> Option<Seq<char>> {
    match ext_dot(name) {
        Some(i) => Some(name.subrange(i + 1, name.len() as int)),
        None => None,
    }
}

/// `name` without its extension.
pub open spec fn stem(name: Seq<char>) -> Seq<char> {
    match ext_dot(name) {
        Some(i) => name.subrange(0, i),
        None => name,
    }
}

/// The kind of file `name` names, by its extension.
pub open spec fn file_kind(name: Seq<char>) -> Option<FileKind> {
    match extension(name) {
        Some(e) => if e == "html"@ {
            Some(FileKind::Html)
        } else if e == "css"@ {
            Some(FileKind::Css)
        } else if e == "js"@ {
            Some(FileKind::Js)
        } else if e == "wasm"@ {
            Some(FileKind::Wasm)
        } else {
            None
        },
        None => None,
    }
}

/// The module that wasm-bindgen writes beside the glue `js` is named
/// `wasm`: its stem is the glue's stem followed by `_bg`.
pub open spec fn is_pair(js: Seq<char>, wasm: Seq<char>) -> bool {
    stem(wasm) == stem(js) + "_bg"@
}

proof fn lemma_last_dot(name: Seq<char>, i: int)
    requires
        0 < i < name.len(),
        name[i] == '.',
        forall|j: int| i < j < name.len() ==> name[j] != '.',
    ensures
        ext_dot(name) == Some(i),
{
    let k = ext_dot(name)->Some_0;
    if k < i {
        assert(name[i] != '.');
    }
    if k > i {
        assert(name[k] != '.');
    }
}

/// The extension and the stem of `name`, as strings.
pub fn split_extension(name: &String) -> (r: (Option<String>, String))
    ensures
        r.0 is Some <==> extension(name@) is Some,
        r.0 is Some ==> r.0->Some_0@ == extension(name@)->Some_0,
        r.1@ == stem(name@),
{
    let chars = chars_of(name.as_str());
    let mut i: usize = chars.len();
    while i > 1
        invariant
            chars@ == name@,
            0 <= i <= chars@.len(),
            forall|j: int| i <= j < chars@.len() ==> chars@[j] != '.',
        decreases i,
    {
        if chars[i - 1] == '.' {
            let d = i - 1;
            proof {
                lemma_last_dot(name@, d as int);
            }
            let mut ext: Vec<char> = Vec::new();
            let mut k: usize = d + 1;
            while k < chars.len()
                invariant
                    d + 1 <= k <= chars@.len(),
                    ext@ == chars@.subrange(d + 1, k as int),
                decreases chars@.len() - k,
            {
                ext.push(chars[k]);
                assert(ext@ =~= chars@.subrange(d + 1, k + 1));
                k = k + 1;
            }
            let mut st: Vec<char> = Vec::new();
            let mut k: usize = 0;
            while k < d
                invariant
                    k <= d,
                    d < chars@.len(),
                    st@ == chars@.subrange(0, k as int),
                decreases d - k,
            {
                st.push(chars[k]);
                assert(st@ =~= chars@.subrange(0, k + 1));
                k = k + 1;
            }
            return (Some(string_of(&ext)), string_of(&st));
        }
        i = i - 1;
    }
    assert(ext_dot(name@) is None) by {
        if exists|j: int| 0 < j < name@.len() && name@[j] == '.' {
            let j = choose|j: int| 0 < j < name@.len() && name@[j] == '.';
            assert(chars@[j] != '.');
        }
    }
    (None, name.clone())
}

/// The kind of file `name` names.
pub fn kind_of(name: &String) -> (r: Option<FileKind>)
    ensures
        r == file_kind(name@),
{
    let (ext, _) = split_extension(name);
    match ext {
        Some(e) => {
            if e == "html".to_owned() {
                Some(FileKind::Html)
            } else if e == "css".to_owned() {
                Some(FileKind::Css)
            } else if e == "js".to_owned() {
                Some(FileKind::Js)
            } else if e == "wasm".to_owned() {
                Some(FileKind::Wasm)
            } else {
                None
            }
        },
        None => None,
    }
}

/// Whether the module `wasm` belongs to the glue `js`.
pub fn pairs_with(js: &String, wasm: &String) -> (r: bool)
    ensures
        r == is_pair(js@, wasm@),
{
    let (_, js_stem) = split_extension(js);
    let (_, wasm_stem) = split_extension(wasm);
    let mut expected = js_stem;
    expected.append("_bg");
    wasm_stem == expected
}


/// What the pipeline does with files: one on its own, or a glue script
/// with its module. Files are named by their position in the listing.
#[derive(Clone, Copy, Debug, PartialEq, Eq, Structural)]
pub enum Target {
    Individual(usize),
    WasmBindgen { js: usize, wasm: usize },
}

/// The target `t` takes file `i`.
pub open spec fn holds(t: Target, i: int) -> bool {
    match t {
        Target::Individual(j) => j == i,
        Target::WasmBindgen { js, wasm } => js == i || wasm == i,
    }
}

/// The target `t` fits the listing `names`: a file on its own is of a
/// handled kind; a pair is a glue script and its module.
pub open spec fn target_ok(names: Seq<String>, t: Target) -> bool {
    match t {
        Target::Individual(j) => j < names.len() && file_kind(names[j as int]@) is Some,
        Target::WasmBindgen { js, wasm } => {
            &&& js < names.len()
            &&& wasm < names.len()
            &&& file_kind(names[js as int]@) == Some(FileKind::Js)
            &&& file_kind(names[wasm as int]@) == Some(FileKind::Wasm)
            &&& is_pair(names[js as int]@, names[wasm as int]@)
        },
    }
}

/// `t` is a file of kind `k` on its own.
pub open spec fn lone_of_kind(names: Seq<String>, t: Target, k: FileKind) -> bool {
    match t {
        Target::Individual(j) => j < names.len() && file_kind(names[j as int]@) == Some(k),
        _ => false,
    }
}

/// The file a lone target takes.
pub open spec fn lone_file(t: Target) -> int {
    match t {
        Target::Individual(j) => j as int,
        _ => -1,
    }
}

/// The first module left for the glue script `i`: one not yet taken,
/// whose name pairs with the script's.
fn find_partner(names: &Vec<String>, taken: &Vec<bool>, i: usize) -> (r: Option<usize>)
    requires
        i < names@.len(),
        taken@.len() == names@.len(),
    ensures
        r is Some ==> {
            let w = r->Some_0 as int;
            &&& 0 <= w < names@.len()
            &&& !taken@[w]
            &&& file_kind(names@[w]@) == Some(FileKind::Wasm)
            &&& is_pair(names@[i as int]@, names@[w]@)
        },
        r is None ==> forall|w: int|
            0 <= w < names@.len() && file_kind(#[trigger] names@[w]@) == Some(FileKind::Wasm)
                && is_pair(names@[i as int]@, names@[w]@) ==> taken@[w],
{
    let mut w: usize = 0;
    while w < names.len()
        invariant
            i < names@.len(),
            taken@.len() == names@.len(),
            w <= names@.len(),
            forall|v: int|
                0 <= v < w && file_kind(#[trigger] names@[v]@) == Some(FileKind::Wasm) && is_pair(
                    names@[i as int]@,
                    names@[v]@,
                ) ==> taken@[v],
        decreases names@.len() - w,
    {
        if !taken[w] {
            let k = kind_of(&names[w]);
            if k == Some(FileKind::Wasm) && pairs_with(&names[i], &names[w]) {
                return Some(w);
            }
        }
        w = w + 1;
    }
    None
}

/// The facts that hold of a partial plan: `r` covers the files before `i`
/// but the modules, which the pairs in `r` took as `taken` marks.
#[verifier::opaque]
pub open spec fn partial_plan(names: Seq<String>, taken: Seq<bool>, r: Seq<Target>, i: int) -> bool {
    &&& taken.len() == names.len()
    &&& forall|k: int| 0 <= k < r.len() ==> target_ok(names, #[trigger] r[k])
    &&& forall|k: int|
        0 <= k < r.len() ==> match #[trigger] r[k] {
            Target::Individual(j) => j < i && file_kind(names[j as int]@) != Some(FileKind::Wasm),
            Target::WasmBindgen { js, wasm } => js < i && taken[wasm as int],
        }
    &&& forall|x: int|
        0 <= x < i && file_kind(#[trigger] names[x]@) is Some && file_kind(names[x]@) != Some(
            FileKind::Wasm,
        ) ==> exists|k: int| 0 <= k < r.len() && holds(#[trigger] r[k], x)
    &&& forall|w: int|
        0 <= w < names.len() && #[trigger] taken[w] ==> exists|k: int|
            0 <= k < r.len() && #[trigger] holds(r[k], w)
    &&& forall|k1: int, k2: int, x: int|
        0 <= k1 < r.len() && 0 <= k2 < r.len() && k1 != k2 && #[trigger] holds(r[k1], x)
            ==> !#[trigger] holds(r[k2], x)
    &&& forall|k: int, w: int|
        0 <= k < r.len() && 0 <= w < names.len() && lone_of_kind(names, #[trigger] r[k], FileKind::Js)
            && file_kind(#[trigger] names[w]@) == Some(FileKind::Wasm) && is_pair(
            names[lone_file(r[k])]@,
            names[w]@,
        ) ==> taken[w]
}

proof fn lemma_plan_skip(names: Seq<String>, taken: Seq<bool>, r: Seq<Target>, i: int)
    requires
        0 <= i < names.len(),
        names.len() <= usize::MAX,
        partial_plan(names, taken, r, i),
        file_kind(names[i]@) is None || file_kind(names[i]@) == Some(FileKind::Wasm),
    ensures
        partial_plan(names, taken, r, i + 1),
{
    reveal(partial_plan);
    assert forall|k: int| 0 <= k < r.len() implies match #[trigger] r[k] {
        Target::Individual(j) => j < i + 1 && file_kind(names[j as int]@) != Some(FileKind::Wasm),
        Target::WasmBindgen { js, wasm } => js < i + 1 && taken[wasm as int],
    } by {}
}

proof fn lemma_plan_push_lone(names: Seq<String>, taken: Seq<bool>, r: Seq<Target>, i: int)
    requires
        0 <= i < names.len(),
        names.len() <= usize::MAX,
        partial_plan(names, taken, r, i),
        file_kind(names[i]@) is Some,
        file_kind(names[i]@) != Some(FileKind::Wasm),
        file_kind(names[i]@) == Some(FileKind::Js) ==> forall|w: int|
            0 <= w < names.len() && file_kind(#[trigger] names[w]@) == Some(FileKind::Wasm)
                && is_pair(names[i]@, names[w]@) ==> taken[w],
    ensures
        partial_plan(names, taken, r.push(Target::Individual(i as usize)), i + 1),
{
    reveal(partial_plan);
    let t = Target::Individual(i as usize);
    let r2 = r.push(t);
    assert forall|k: int| 0 <= k < r.len() implies #[trigger] r2[k] == r[k] by {}
    assert(r2[r.len() as int] == t);
    assert forall|k: int| 0 <= k < r2.len() implies target_ok(names, #[trigger] r2[k]) by {
        if k < r.len() {
            assert(r2[k] == r[k]);
        }
    }
    assert forall|k: int| 0 <= k < r2.len() implies match #[trigger] r2[k] {
        Target::Individual(j) => j < i + 1 && file_kind(names[j as int]@) != Some(FileKind::Wasm),
        Target::WasmBindgen { js, wasm } => js < i + 1 && taken[wasm as int],
    } by {
        if k < r.len() {
            assert(r2[k] == r[k]);
        }
    }
    assert forall|x: int|
        0 <= x < i + 1 && file_kind(#[trigger] names[x]@) is Some && file_kind(names[x]@)
            != Some(FileKind::Wasm) implies exists|k: int| 0 <= k < r2.len() && holds(#[trigger] r2[k], x) by {
        if x < i {
            let k = choose|k: int| 0 <= k < r.len() && holds(#[trigger] r[k], x);
            assert(r2[k] == r[k]);
        } else {
            assert(holds(r2[r.len() as int], x));
        }
    }
    assert forall|w: int| 0 <= w < names.len() && #[trigger] taken[w] implies exists|k: int|
        0 <= k < r2.len() && #[trigger] holds(r2[k], w) by {
        let k = choose|k: int| 0 <= k < r.len() && #[trigger] holds(r[k], w);
        assert(r2[k] == r[k]);
    }
    assert forall|k1: int, k2: int, x: int|
        0 <= k1 < r2.len() && 0 <= k2 < r2.len() && k1 != k2 && #[trigger] holds(r2[k1], x)
            implies !#[trigger] holds(r2[k2], x) by {
        if k1 < r.len() && k2 < r.len() {
            assert(r2[k1] == r[k1]);
            assert(r2[k2] == r[k2]);
        } else if k1 < r.len() {
            assert(r2[k1] == r[k1]);
            match r[k1] {
                Target::Individual(j) => {},
                Target::WasmBindgen { js, wasm } => {
                    assert(target_ok(names, r[k1]));
                },
            }
        } else {
            assert(r2[k2] == r[k2]);
            match r[k2] {
                Target::Individual(j) => {},
                Target::WasmBindgen { js, wasm } => {
                    assert(target_ok(names, r[k2]));
                },
            }
        }
    }
    assert forall|k: int, w: int|
        0 <= k < r2.len() && 0 <= w < names.len() && lone_of_kind(names, #[trigger] r2[k], FileKind::Js)
            && file_kind(#[trigger] names[w]@) == Some(FileKind::Wasm) && is_pair(
            names[lone_file(r2[k])]@,
            names[w]@,
        ) implies taken[w] by {
        if k < r.len() {
            assert(r2[k] == r[k]);
        }
    }
}

#[verifier::rlimit(40)]
proof fn lemma_plan_push_pair(names: Seq<String>, taken: Seq<bool>, r: Seq<Target>, i: int, w: int)
    requires
        0 <= i < names.len(),
        0 <= w < names.len(),
        names.len() <= usize::MAX,
        partial_plan(names, taken, r, i),
        file_kind(names[i]@) == Some(FileKind::Js),
        file_kind(names[w]@) == Some(FileKind::Wasm),
        is_pair(names[i]@, names[w]@),
        !taken[w],
    ensures
        partial_plan(
            names,
            taken.update(w, true),
            r.push(Target::WasmBindgen { js: i as usize, wasm: w as usize }),
            i + 1,
        ),
{
    reveal(partial_plan);
    let t = Target::WasmBindgen { js: i as usize, wasm: w as usize };
    let r2 = r.push(t);
    let taken2 = taken.update(w, true);
    assert forall|k: int| 0 <= k < r.len() implies #[trigger] r2[k] == r[k] by {}
    assert(r2[r.len() as int] == t);
    assert forall|k: int| 0 <= k < r2.len() implies target_ok(names, #[trigger] r2[k]) by {
        if k < r.len() {
            assert(r2[k] == r[k]);
        }
    }
    assert forall|k: int| 0 <= k < r2.len() implies match #[trigger] r2[k] {
        Target::Individual(j) => j < i + 1 && file_kind(names[j as int]@) != Some(FileKind::Wasm),
        Target::WasmBindgen { js, wasm } => js < i + 1 && taken2[wasm as int],
    } by {
        if k < r.len() {
            assert(r2[k] == r[k]);
        }
    }
    assert forall|x: int|
        0 <= x < i + 1 && file_kind(#[trigger] names[x]@) is Some && file_kind(names[x]@)
            != Some(FileKind::Wasm) implies exists|k: int| 0 <= k < r2.len() && holds(#[trigger] r2[k], x) by {
        if x < i {
            let k = choose|k: int| 0 <= k < r.len() && holds(#[trigger] r[k], x);
            assert(r2[k] == r[k]);
        } else {
            assert(holds(r2[r.len() as int], x));
        }
    }
    assert forall|v: int| 0 <= v < names.len() && #[trigger] taken2[v] implies exists|k: int|
        0 <= k < r2.len() && #[trigger] holds(r2[k], v) by {
        if v == w {
            assert(holds(r2[r.len() as int], v));
        } else {
            assert(taken[v]);
            let k = choose|k: int| 0 <= k < r.len() && #[trigger] holds(r[k], v);
            assert(r2[k] == r[k]);
        }
    }
    assert forall|k1: int, k2: int, x: int|
        0 <= k1 < r2.len() && 0 <= k2 < r2.len() && k1 != k2 && #[trigger] holds(r2[k1], x)
            implies !#[trigger] holds(r2[k2], x) by {
        if k1 < r.len() && k2 < r.len() {
            assert(r2[k1] == r[k1]);
            assert(r2[k2] == r[k2]);
        } else {
            let k = if k1 < r.len() { k1 } else { k2 };
            assert(r2[k] == r[k]);
            assert(target_ok(names, r[k]));
            if x == w {
                match r[k] {
                    Target::Individual(j) => {},
                    Target::WasmBindgen { js, wasm } => {
                        if holds(r[k], w) {
                            assert(wasm == w);
                        }
                    },
                }
            }
        }
    }
    assert forall|k: int, v: int|
        0 <= k < r2.len() && 0 <= v < names.len() && lone_of_kind(names, #[trigger] r2[k], FileKind::Js)
            && file_kind(#[trigger] names[v]@) == Some(FileKind::Wasm) && is_pair(
            names[lone_file(r2[k])]@,
            names[v]@,
        ) implies taken2[v] by {
        if k < r.len() {
            assert(r2[k] == r[k]);
        }
    }
}

proof fn lemma_finish_targets(names: Seq<String>, taken: Seq<bool>, r1: Seq<Target>, r: Seq<Target>)
    requires
        names.len() <= usize::MAX,
        partial_plan(names, taken, r1, names.len() as int),
        r.len() >= r1.len(),
        forall|k: int| 0 <= k < r1.len() ==> #[trigger] r[k] == r1[k],
        forall|k: int|
            r1.len() <= k < r.len() ==> match #[trigger] r[k] {
                Target::Individual(j) => j < names.len() && file_kind(names[j as int]@) == Some(
                    FileKind::Wasm,
                ) && !taken[j as int],
                _ => false,
            },
        forall|v: int|
            0 <= v < names.len() && file_kind(#[trigger] names[v]@) == Some(FileKind::Wasm) && !taken[v]
                ==> exists|k: int| r1.len() <= k < r.len() && r[k] == Target::Individual(v as usize),
        forall|k1: int, k2: int|
            r1.len() <= k1 < k2 < r.len() ==> lone_file(#[trigger] r[k1]) < lone_file(#[trigger] r[k2]),
    ensures
        forall|k: int| 0 <= k < r.len() ==> target_ok(names, #[trigger] r[k]),

{
    reveal(partial_plan);
    assert forall|k: int| 0 <= k < r.len() implies target_ok(names, #[trigger] r[k]) by {
        if k < r1.len() {
            assert(r[k] == r1[k]);
        }
    }
}

proof fn lemma_finish_cover(names: Seq<String>, taken: Seq<bool>, r1: Seq<Target>, r: Seq<Target>)
    requires
        names.len() <= usize::MAX,
        partial_plan(names, taken, r1, names.len() as int),
        r.len() >= r1.len(),
        forall|k: int| 0 <= k < r1.len() ==> #[trigger] r[k] == r1[k],
        forall|k: int|
            r1.len() <= k < r.len() ==> match #[trigger] r[k] {
                Target::Individual(j) => j < names.len() && file_kind(names[j as int]@) == Some(
                    FileKind::Wasm,
                ) && !taken[j as int],
                _ => false,
            },
        forall|v: int|
            0 <= v < names.len() && file_kind(#[trigger] names[v]@) == Some(FileKind::Wasm) && !taken[v]
                ==> exists|k: int| r1.len() <= k < r.len() && r[k] == Target::Individual(v as usize),
        forall|k1: int, k2: int|
            r1.len() <= k1 < k2 < r.len() ==> lone_file(#[trigger] r[k1]) < lone_file(#[trigger] r[k2]),
    ensures
        forall|x: int|
            0 <= x < names.len() ==> (file_kind(#[trigger] names[x]@) is Some <==> exists|k: int|
                0 <= k < r.len() && holds(#[trigger] r[k], x)),

{
    reveal(partial_plan);
    lemma_finish_targets(names, taken, r1, r);
    assert forall|x: int| 0 <= x < names.len() implies (file_kind(#[trigger] names[x]@) is Some <==> exists|k: int|
        0 <= k < r.len() && holds(#[trigger] r[k], x)) by {
        if file_kind(names[x]@) is Some {
            if file_kind(names[x]@) == Some(FileKind::Wasm) && !taken[x] {
                let k = choose|k: int| r1.len() <= k < r.len() && r[k] == Target::Individual(x as usize);
                assert(holds(r[k], x));
            } else if file_kind(names[x]@) == Some(FileKind::Wasm) {
                let k = choose|k: int| 0 <= k < r1.len() && #[trigger] holds(r1[k], x);
                assert(r[k] == r1[k]);
            } else {
                let k = choose|k: int| 0 <= k < r1.len() && holds(#[trigger] r1[k], x);
                assert(r[k] == r1[k]);
            }
        }
        if exists|k: int| 0 <= k < r.len() && holds(#[trigger] r[k], x) {
            let k = choose|k: int| 0 <= k < r.len() && holds(#[trigger] r[k], x);
            assert(target_ok(names, r[k]));
        }
    }
}

proof fn lemma_finish_unique(names: Seq<String>, taken: Seq<bool>, r1: Seq<Target>, r: Seq<Target>)
    requires
        names.len() <= usize::MAX,
        partial_plan(names, taken, r1, names.len() as int),
        r.len() >= r1.len(),
        forall|k: int| 0 <= k < r1.len() ==> #[trigger] r[k] == r1[k],
        forall|k: int|
            r1.len() <= k < r.len() ==> match #[trigger] r[k] {
                Target::Individual(j) => j < names.len() && file_kind(names[j as int]@) == Some(
                    FileKind::Wasm,
                ) && !taken[j as int],
                _ => false,
            },
        forall|v: int|
            0 <= v < names.len() && file_kind(#[trigger] names[v]@) == Some(FileKind::Wasm) && !taken[v]
                ==> exists|k: int| r1.len() <= k < r.len() && r[k] == Target::Individual(v as usize),
        forall|k1: int, k2: int|
            r1.len() <= k1 < k2 < r.len() ==> lone_file(#[trigger] r[k1]) < lone_file(#[trigger] r[k2]),
    ensures
        forall|k1: int, k2: int, x: int|
            0 <= k1 < r.len() && 0 <= k2 < r.len() && k1 != k2 && #[trigger] holds(r[k1], x)
                ==> !#[trigger] holds(r[k2], x),

{
    reveal(partial_plan);
    assert forall|k1: int, k2: int, x: int|
        0 <= k1 < r.len() && 0 <= k2 < r.len() && k1 != k2 && #[trigger] holds(r[k1], x)
            implies !#[trigger] holds(r[k2], x) by {
        if k1 < r1.len() && k2 < r1.len() {
            assert(r[k1] == r1[k1]);
            assert(r[k2] == r1[k2]);
        } else if k1 < r1.len() {
            assert(r[k1] == r1[k1]);
            if holds(r[k2], x) {
                assert(!taken[x]);
                match r1[k1] {
                    Target::Individual(j) => {},
                    Target::WasmBindgen { js, wasm } => {},
                }
            }
        } else if k2 < r1.len() {
            assert(r[k2] == r1[k2]);
            assert(!taken[x]);
            match r1[k2] {
                Target::Individual(j) => {},
                Target::WasmBindgen { js, wasm } => {},
            }
        } else {
            match r[k1] {
                Target::Individual(j1) => {
                    match r[k2] {
                        Target::Individual(j2) => {
                            if k1 < k2 {
                                assert(lone_file(r[k1]) < lone_file(r[k2]));
                            } else {
                                assert(lone_file(r[k2]) < lone_file(r[k1]));
                            }
                        },
                        _ => {},
                    }
                },
                _ => {},
            }
        }
    }
}

proof fn lemma_finish_lone(names: Seq<String>, taken: Seq<bool>, r1: Seq<Target>, r: Seq<Target>)
    requires
        names.len() <= usize::MAX,
        partial_plan(names, taken, r1, names.len() as int),
        r.len() >= r1.len(),
        forall|k: int| 0 <= k < r1.len() ==> #[trigger] r[k] == r1[k],
        forall|k: int|
            r1.len() <= k < r.len() ==> match #[trigger] r[k] {
                Target::Individual(j) => j < names.len() && file_kind(names[j as int]@) == Some(
                    FileKind::Wasm,
                ) && !taken[j as int],
                _ => false,
            },
        forall|v: int|
            0 <= v < names.len() && file_kind(#[trigger] names[v]@) == Some(FileKind::Wasm) && !taken[v]
                ==> exists|k: int| r1.len() <= k < r.len() && r[k] == Target::Individual(v as usize),
        forall|k1: int, k2: int|
            r1.len() <= k1 < k2 < r.len() ==> lone_file(#[trigger] r[k1]) < lone_file(#[trigger] r[k2]),
    ensures
        forall|k1: int, k2: int|
            0 <= k1 < r.len() && 0 <= k2 < r.len() && lone_of_kind(names, #[trigger] r[k1], FileKind::Js)
                && lone_of_kind(names, #[trigger] r[k2], FileKind::Wasm) ==> !is_pair(
                names[lone_file(r[k1])]@,
                names[lone_file(r[k2])]@,
            ),

{
    reveal(partial_plan);
    assert forall|k1: int, k2: int|
        0 <= k1 < r.len() && 0 <= k2 < r.len() && lone_of_kind(names, #[trigger] r[k1], FileKind::Js)
            && lone_of_kind(names, #[trigger] r[k2], FileKind::Wasm) implies !is_pair(
            names[lone_file(r[k1])]@,
            names[lone_file(r[k2])]@,
        ) by {
        if k1 < r1.len() {
            assert(r[k1] == r1[k1]);
            let w = lone_file(r[k2]);
            if k2 < r1.len() {
                assert(r[k2] == r1[k2]);
            } else {
                assert(!taken[w]);
            }
        }
    }
}

/// Groups the files of a listing: every file of a handled kind goes to
/// exactly one target, others to none; a glue script goes with its module
/// whenever one is left for it, and no lone glue script has a lone module
/// that belongs to it.
pub fn plan_targets(names: &Vec<String>) -> (r: Vec<Target>)
    ensures
        forall|k: int| 0 <= k < r@.len() ==> target_ok(names@, #[trigger] r@[k]),
        forall|x: int|
            0 <= x < names@.len() ==> (file_kind(#[trigger] names@[x]@) is Some <==> exists|k: int|
                0 <= k < r@.len() && holds(#[trigger] r@[k], x)),
        forall|k1: int, k2: int, x: int|
            0 <= k1 < r@.len() && 0 <= k2 < r@.len() && k1 != k2 && #[trigger] holds(r@[k1], x)
                ==> !#[trigger] holds(r@[k2], x),
        forall|k1: int, k2: int|
            0 <= k1 < r@.len() && 0 <= k2 < r@.len() && lone_of_kind(names@, #[trigger] r@[k1], FileKind::Js)
                && lone_of_kind(names@, #[trigger] r@[k2], FileKind::Wasm) ==> !is_pair(
                names@[lone_file(r@[k1])]@,
                names@[lone_file(r@[k2])]@,
            ),
{
    let n = names.len();
    let mut taken: Vec<bool> = Vec::new();
    let mut k: usize = 0;
    while k < n
        invariant
            n == names@.len(),
            k <= n,
            taken@.len() == k,
            forall|w: int| 0 <= w < k ==> !taken@[w],
        decreases n - k,
    {
        taken.push(false);
        k = k + 1;
    }
    let mut r: Vec<Target> = Vec::new();
    let mut i: usize = 0;
    proof {
        reveal(partial_plan);
    }
    while i < n
        invariant
            n == names@.len(),
            i <= n,
            taken@.len() == n,
            partial_plan(names@, taken@, r@, i as int),
        decreases n - i,
    {
        let kind = kind_of(&names[i]);
        let ghost r0 = r@;
        let ghost taken0 = taken@;
        match kind {
            Some(FileKind::Js) => {
                match find_partner(names, &taken, i) {
                    Some(w) => {
                        taken.set(w, true);
                        r.push(Target::WasmBindgen { js: i, wasm: w });
                        proof {
                            lemma_plan_push_pair(names@, taken0, r0, i as int, w as int);
                        }
                    },
                    None => {
                        r.push(Target::Individual(i));
                        proof {
                            lemma_plan_push_lone(names@, taken0, r0, i as int);
                        }
                    },
                }
            },
            Some(FileKind::Wasm) => {
                proof {
                    lemma_plan_skip(names@, taken0, r0, i as int);
                }
            },
            Some(_) => {
                r.push(Target::Individual(i));
                proof {
                    lemma_plan_push_lone(names@, taken0, r0, i as int);
                }
            },
            None => {
                proof {
                    lemma_plan_skip(names@, taken0, r0, i as int);
                }
            },
        }
        i = i + 1;
    }
    let ghost r1 = r@;
    let mut w: usize = 0;
    while w < n
        invariant
            n == names@.len(),
            w <= n,
            partial_plan(names@, taken@, r1, n as int),
            taken@.len() == n,
            r@.len() >= r1.len(),
            forall|k: int| 0 <= k < r1.len() ==> #[trigger] r@[k] == r1[k],
            forall|k: int|
                r1.len() <= k < r@.len() ==> match #[trigger] r@[k] {
                    Target::Individual(j) => j < w && file_kind(names@[j as int]@) == Some(
                        FileKind::Wasm,
                    ) && !taken@[j as int],
                    _ => false,
                },
            forall|v: int|
                0 <= v < w && file_kind(#[trigger] names@[v]@) == Some(FileKind::Wasm) && !taken@[v]
                    ==> exists|k: int| r1.len() <= k < r@.len() && r@[k] == Target::Individual(v as usize),
            forall|k1: int, k2: int|
                r1.len() <= k1 < k2 < r@.len() ==> lone_file(#[trigger] r@[k1]) < lone_file(#[trigger] r@[k2]),
        decreases n - w,
    {
        let ghost before = r@;
        if !taken[w] && kind_of(&names[w]) == Some(FileKind::Wasm) {
            r.push(Target::Individual(w));
            proof {
                assert forall|k: int| 0 <= k < before.len() implies #[trigger] r@[k] == before[k] by {}
                assert forall|v: int|
                    0 <= v < w + 1 && file_kind(#[trigger] names@[v]@) == Some(FileKind::Wasm) && !taken@[v]
                        implies exists|k: int| r1.len() <= k < r@.len() && r@[k] == Target::Individual(v as usize) by {
                    if v < w {
                        let k = choose|k: int| r1.len() <= k < before.len() && before[k] == Target::Individual(v as usize);
                        assert(r@[k] == before[k]);
                    } else {
                        assert(r@[before.len() as int] == Target::Individual(v as usize));
                    }
                }
            }
        }
        w = w + 1;
    }
    proof {
        lemma_finish_targets(names@, taken@, r1, r@);
        lemma_finish_cover(names@, taken@, r1, r@);
        lemma_finish_unique(names@, taken@, r1, r@);
        lemma_finish_lone(names@, taken@, r1, r@);
    }
    r
}


/// The sizes reported for one file. The minified size is left out when
/// minifying did not change the size.
#[derive(Clone, Copy, Debug, PartialEq, Eq, Structural)]
pub struct ProcessStats {
    pub origin_size: usize,
    pub minified_size: Option<usize>,
    pub brotlied_size: usize,
}

/// The report for a file of `origin_size` bytes that became
/// `minified_size` bytes, and `brotlied_size` once compressed.
pub fn process_stats(origin_size: usize, minified_size: usize, brotlied_size: usize) -> (r: ProcessStats)
    ensures
        r.origin_size == origin_size,
        r.brotlied_size == brotlied_size,
        r.minified_size == if minified_size == origin_size {
            None
        } else {
            Some(minified_size)
        },
{
    ProcessStats {
        origin_size,
        minified_size: if origin_size != minified_size {
            Some(minified_size)
        } else {
            None
        },
        brotlied_size,
    }
}

/// The width of the file name column: the length, in characters, of the
/// longest name, and 0 for no names.
pub fn name_column_width(names: &Vec<String>) -> (r: usize)
    ensures
        forall|i: int| 0 <= i < names@.len() ==> (#[trigger] names@[i])@.len() <= r,
        names@.len() == 0 ==> r == 0,
        names@.len() > 0 ==> exists|i: int| 0 <= i < names@.len() && (#[trigger] names@[i])@.len() == r,
{
    let mut r: usize = 0;
    let mut i: usize = 0;
    while i < names.len()
        invariant
            i <= names@.len(),
            forall|j: int| 0 <= j < i ==> (#[trigger] names@[j])@.len() <= r,
            i == 0 ==> r == 0,
            i > 0 ==> exists|j: int| 0 <= j < i && (#[trigger] names@[j])@.len() == r,
        decreases names@.len() - i,
    {
        let len = names[i].as_str().unicode_len();
        if len > r || i == 0 {
            r = len;
        }
        i = i + 1;
    }
    r
}

} // verus!
