//! File-system paths held as text, with the rules of `std::path::Path` on Unix that
//! the library relies on: joining, the last component, extensions, components, their
//! order, and prefixes.
use vstd::prelude::*;

use crate::text::{append_chars, chars_of, string_of, chars_eq};

verus! {

/// One component of a path.
pub enum Comp {
    RootDir,
    CurDir,
    ParentDir,
    Normal(Seq<char>),
}

/// Scan step over path text: finished names and the name being read. Empty names and
/// `.` are dropped.
pub open spec fn seg_step(acc: (Seq<Seq<char>>, Seq<char>), c: char) -> (Seq<Seq<char>>, Seq<char>) {
    if c == '/' {
        if acc.1.len() > 0 && acc.1 != seq!['.'] {
            (acc.0.push(acc.1), Seq::empty())
        } else {
            (acc.0, Seq::empty())
        }
    } else {
        (acc.0, acc.1.push(c))
    }
}

pub open spec fn seg_scan(p: Seq<char>) -> (Seq<Seq<char>>, Seq<char>)
    decreases p.len(),
{
    if p.len() == 0 {
        (Seq::empty(), Seq::empty())
    } else {
        seg_step(seg_scan(p.drop_last()), p.last())
    }
}

/// The names between slashes, in order, without empty names and `.`.
pub open spec fn named_segments(p: Seq<char>) -> Seq<Seq<char>> {
    let s = seg_scan(p);
    if s.1.len() > 0 && s.1 != seq!['.'] {
        s.0.push(s.1)
    } else {
        s.0
    }
}

pub open spec fn has_root(p: Seq<char>) -> bool {
    p.len() > 0 && p[0] == '/'
}

/// A relative path that starts with the current directory (`.` or `./`).
pub open spec fn starts_with_cur_dir(p: Seq<char>) -> bool {
    !has_root(p) && p.len() > 0 && p[0] == '.' && (p.len() == 1 || p[1] == '/')
}

pub open spec fn seg_comp(s: Seq<char>) -> Comp {
    if s == seq!['.', '.'] {
        Comp::ParentDir
    } else {
        Comp::Normal(s)
    }
}

/// The components of a path, as `Path::components` gives them.
pub open spec fn components(p: Seq<char>) -> Seq<Comp> {
    (if has_root(p) {
        seq![Comp::RootDir]
    } else {
        Seq::empty()
    }) + (if starts_with_cur_dir(p) {
        seq![Comp::CurDir]
    } else {
        Seq::empty()
    }) + named_segments(p).map_values(|s: Seq<char>| seg_comp(s))
}

/// The last component's name, as `Path::file_name` gives it.
pub open spec fn file_name(p: Seq<char>) -> Option<Seq<char>> {
    let n = named_segments(p);
    if n.len() == 0 || n.last() == seq!['.', '.'] {
        None
    } else {
        Some(n.last())
    }
}

/// Index of the last `.` in `s`, or -1.
pub open spec fn last_dot(s: Seq<char>) -> int
    decreases s.len(),
{
    if s.len() == 0 {
        -1
    } else if s.last() == '.' {
        s.len() - 1
    } else {
        last_dot(s.drop_last())
    }
}

/// The extension, as `Path::extension` gives it: the text after the last dot of the
/// file name, unless that dot starts the name.
pub open spec fn extension(p: Seq<char>) -> Option<Seq<char>> {
    match file_name(p) {
        Some(name) => if last_dot(name) <= 0 {
            None
        } else {
            Some(name.subrange(last_dot(name) + 1, name.len() as int))
        },
        None => None,
    }
}

/// `base` joined with `rest`, as `Path::join` does: an absolute `rest` replaces `base`,
/// otherwise one slash separates them unless `base` is empty or ends in one.
pub open spec fn join_spec(base: Seq<char>, rest: Seq<char>) -> Seq<char> {
    if has_root(rest) || base.len() == 0 {
        rest
    } else if base.last() == '/' {
        base + rest
    } else {
        base + seq!['/'] + rest
    }
}

proof fn lemma_seg_scan_push(p: Seq<char>, c: char)
    ensures
        seg_scan(p.push(c)) == seg_step(seg_scan(p), c),
{
    assert(p.push(c).drop_last() =~= p);
}

fn is_dot(v: &Vec<char>) -> (r: bool)
    ensures
        r == (v@ == seq!['.']),
{
    if v.len() == 1 && v[0] == '.' {
        assert(v@ =~= seq!['.']);
        true
    } else {
        false
    }
}

/// The names between slashes (see [`named_segments`]).
pub fn path_segments(p: &Vec<char>) -> (r: Vec<Vec<char>>)
    ensures
        r@.len() == named_segments(p@).len(),
        forall|k: int| 0 <= k < r@.len() ==> #[trigger] r@[k]@ == named_segments(p@)[k],
{
    let mut done: Vec<Vec<char>> = Vec::new();
    let mut current: Vec<char> = Vec::new();
    let mut i: usize = 0;
    while i < p.len()
        invariant
            i <= p@.len(),
            done@.len() == seg_scan(p@.subrange(0, i as int)).0.len(),
            forall|k: int|
                0 <= k < done@.len() ==> #[trigger] done@[k]@ == seg_scan(p@.subrange(0, i as int)).0[k],
            current@ == seg_scan(p@.subrange(0, i as int)).1,
        decreases p.len() - i,
    {
        let c = p[i];
        proof {
            lemma_seg_scan_push(p@.subrange(0, i as int), c);
            assert(p@.subrange(0, i as int).push(c) =~= p@.subrange(0, i + 1));
        }
        if c == '/' {
            if current.len() > 0 && !is_dot(&current) {
                let w = current;
                done.push(w);
            }
            current = Vec::new();
        } else {
            current.push(c);
        }
        i += 1;
    }
    assert(p@.subrange(0, p@.len() as int) =~= p@);
    if current.len() > 0 && !is_dot(&current) {
        done.push(current);
    }
    done
}

fn is_dot_dot(v: &Vec<char>) -> (r: bool)
    ensures
        r == (v@ == seq!['.', '.']),
{
    if v.len() == 2 && v[0] == '.' && v[1] == '.' {
        assert(v@ =~= seq!['.', '.']);
        true
    } else {
        false
    }
}

/// The last component's name (see [`file_name`]).
pub fn file_name_of(p: &Vec<char>) -> (r: Option<Vec<char>>)
    ensures
        match r {
            Some(n) => file_name(p@) == Some(n@),
            None => file_name(p@) is None,
        },
{
    let segs = path_segments(p);
    if segs.len() == 0 {
        return None;
    }
    let last = &segs[segs.len() - 1];
    if is_dot_dot(last) {
        None
    } else {
        Some(crate::text::slice_chars(last, 0, last.len()))
    }
}

proof fn lemma_last_dot_bounds(s: Seq<char>)
    ensures
        -1 <= last_dot(s) < s.len(),
        last_dot(s) >= 0 ==> s[last_dot(s)] == '.',
        forall|j: int| last_dot(s) < j < s.len() ==> s[j] != '.',
    decreases s.len(),
{
    if s.len() > 0 && s.last() != '.' {
        lemma_last_dot_bounds(s.drop_last());
        assert forall|j: int| last_dot(s) < j < s.len() implies s[j] != '.' by {
            if j < s.len() - 1 {
                assert(s.drop_last()[j] == s[j]);
            }
        }
    }
}

proof fn lemma_last_dot_unique(s: Seq<char>, i: int)
    requires
        0 <= i < s.len(),
        s[i] == '.',
        forall|j: int| i < j < s.len() ==> s[j] != '.',
    ensures
        last_dot(s) == i,
    decreases s.len(),
{
    if i < s.len() - 1 {
        assert forall|j: int| i < j < s.drop_last().len() implies s.drop_last()[j] != '.' by {
            assert(s.drop_last()[j] == s[j]);
        }
        lemma_last_dot_unique(s.drop_last(), i);
    }
}

proof fn lemma_last_dot_none(s: Seq<char>)
    requires
        forall|j: int| 0 <= j < s.len() ==> s[j] != '.',
    ensures
        last_dot(s) == -1,
    decreases s.len(),
{
    if s.len() > 0 {
        assert forall|j: int| 0 <= j < s.drop_last().len() implies s.drop_last()[j] != '.' by {
            assert(s.drop_last()[j] == s[j]);
        }
        lemma_last_dot_none(s.drop_last());
    }
}

/// The extension of the path (see [`extension`]).
pub fn extension_of(p: &Vec<char>) -> (r: Option<Vec<char>>)
    ensures
        match r {
            Some(e) => extension(p@) == Some(e@),
            None => extension(p@) is None,
        },
{
    let name = match file_name_of(p) {
        Some(n) => n,
        None => {
            return None;
        },
    };
    let mut i: usize = name.len();
    while i > 0 && name[i - 1] != '.'
        invariant
            i <= name@.len(),
            forall|j: int| i <= j < name@.len() ==> name@[j] != '.',
        decreases i,
    {
        i -= 1;
    }
    proof {
        if i > 0 {
            lemma_last_dot_unique(name@, i - 1);
        } else {
            lemma_last_dot_none(name@);
        }
    }
    if i <= 1 {
        None
    } else {
        Some(crate::text::slice_chars(&name, i, name.len()))
    }
}

/// `base` joined with `rest` (see [`join_spec`]).
pub fn join(base: &str, rest: &str) -> (r: String)
    ensures
        r@ == join_spec(base@, rest@),
{
    let b = chars_of(base);
    let r = chars_of(rest);
    if (r.len() > 0 && r[0] == '/') || b.len() == 0 {
        return string_of(r.as_slice());
    }
    let mut out = b;
    if out[out.len() - 1] != '/' {
        out.push('/');
    }
    append_chars(&mut out, &r);
    string_of(out.as_slice())
}


// ---------------------------------------------------------------------------
// Components and their order
// ---------------------------------------------------------------------------
/// A component of a path, as held by the library.
#[derive(Debug)]
pub enum PathComp {
    RootDir,
    CurDir,
    ParentDir,
    Normal(Vec<char>),
}

impl View for PathComp {
    type V = Comp;

    open spec fn view(&self) -> Comp {
        match self {
            PathComp::RootDir => Comp::RootDir,
            PathComp::CurDir => Comp::CurDir,
            PathComp::ParentDir => Comp::ParentDir,
            PathComp::Normal(v) => Comp::Normal(v@),
        }
    }
}

pub open spec fn comps_view(v: Seq<PathComp>) -> Seq<Comp> {
    Seq::new(v.len(), |i: int| v[i]@)
}

/// The components of a path (see [`components`]).
pub fn path_components(p: &Vec<char>) -> (r: Vec<PathComp>)
    ensures
        comps_view(r@) == components(p@),
{
    let mut out: Vec<PathComp> = Vec::new();
    let root = p.len() > 0 && p[0] == '/';
    if root {
        out.push(PathComp::RootDir);
    }
    if !root && p.len() > 0 && p[0] == '.' && (p.len() == 1 || p[1] == '/') {
        out.push(PathComp::CurDir);
    }
    let ghost head = comps_view(out@);
    let segs = path_segments(p);
    let ghost ns = named_segments(p@);
    let mut i: usize = 0;
    while i < segs.len()
        invariant
            i <= segs@.len() == ns.len(),
            ns == named_segments(p@),
            forall|k: int| 0 <= k < segs@.len() ==> #[trigger] segs@[k]@ == ns[k],
            comps_view(out@) == head + ns.subrange(0, i as int).map_values(|s: Seq<char>| seg_comp(s)),
        decreases segs.len() - i,
    {
        let ghost before = out@;
        let seg = &segs[i];
        if is_dot_dot(seg) {
            out.push(PathComp::ParentDir);
        } else {
            out.push(PathComp::Normal(crate::text::slice_chars(seg, 0, seg.len())));
        }
        proof {
            assert(seg@.subrange(0, seg@.len() as int) =~= seg@);
            assert(comps_view(out@) =~= comps_view(before).push(seg_comp(ns[i as int])));
            assert(ns.subrange(0, i + 1).map_values(|s: Seq<char>| seg_comp(s)) =~= ns.subrange(
                0,
                i as int,
            ).map_values(|s: Seq<char>| seg_comp(s)).push(seg_comp(ns[i as int])));
        }
        i += 1;
    }
    proof {
        assert(ns.subrange(0, ns.len() as int) =~= ns);
        assert(comps_view(out@) =~= components(p@));
    }
    out
}

pub open spec fn comp_rank(c: Comp) -> int {
    match c {
        Comp::RootDir => 0,
        Comp::CurDir => 1,
        Comp::ParentDir => 2,
        Comp::Normal(_) => 3,
    }
}

/// Lexicographic order of character sequences (-1, 0 or 1).
pub open spec fn order_chars(a: Seq<char>, b: Seq<char>) -> int
    decreases a.len(),
{
    if a.len() == 0 {
        if b.len() == 0 {
            0
        } else {
            -1
        }
    } else if b.len() == 0 {
        1
    } else if a[0] < b[0] {
        -1
    } else if a[0] > b[0] {
        1
    } else {
        order_chars(a.drop_first(), b.drop_first())
    }
}

/// Order of components: by kind, and names by their text.
pub open spec fn order_comp(x: Comp, y: Comp) -> int {
    if comp_rank(x) < comp_rank(y) {
        -1
    } else if comp_rank(x) > comp_rank(y) {
        1
    } else {
        match (x, y) {
            (Comp::Normal(a), Comp::Normal(b)) => order_chars(a, b),
            _ => 0,
        }
    }
}

/// Lexicographic order of component sequences.
pub open spec fn order_comps(a: Seq<Comp>, b: Seq<Comp>) -> int
    decreases a.len(),
{
    if a.len() == 0 {
        if b.len() == 0 {
            0
        } else {
            -1
        }
    } else if b.len() == 0 {
        1
    } else if order_comp(a[0], b[0]) != 0 {
        order_comp(a[0], b[0])
    } else {
        order_comps(a.drop_first(), b.drop_first())
    }
}

/// The order of paths (as `Ord for Path` orders them): by their components.
pub open spec fn path_order(a: Seq<char>, b: Seq<char>) -> int {
    order_comps(components(a), components(b))
}

/// Path equality (`PartialEq for Path`): equal components.
pub open spec fn path_eq(a: Seq<char>, b: Seq<char>) -> bool {
    components(a) == components(b)
}

pub proof fn lemma_order_chars(a: Seq<char>, b: Seq<char>)
    ensures
        order_chars(a, b) == -order_chars(b, a),
        (order_chars(a, b) == 0) == (a == b),
        -1 <= order_chars(a, b) <= 1,
    decreases a.len(),
{
    if a.len() > 0 && b.len() > 0 && a[0] == b[0] {
        lemma_order_chars(a.drop_first(), b.drop_first());
        if a.drop_first() == b.drop_first() {
            assert(a =~= seq![a[0]] + a.drop_first());
            assert(b =~= seq![b[0]] + b.drop_first());
        }
    } else if a.len() == 0 && b.len() == 0 {
        assert(a =~= b);
    }
}

pub proof fn lemma_order_comp(x: Comp, y: Comp)
    ensures
        order_comp(x, y) == -order_comp(y, x),
        (order_comp(x, y) == 0) == (x == y),
        -1 <= order_comp(x, y) <= 1,
{
    match (x, y) {
        (Comp::Normal(a), Comp::Normal(b)) => lemma_order_chars(a, b),
        _ => {},
    }
}

pub proof fn lemma_order_comps(a: Seq<Comp>, b: Seq<Comp>)
    ensures
        order_comps(a, b) == -order_comps(b, a),
        (order_comps(a, b) == 0) == (a == b),
        -1 <= order_comps(a, b) <= 1,
    decreases a.len(),
{
    if a.len() > 0 && b.len() > 0 {
        lemma_order_comp(a[0], b[0]);
        if order_comp(a[0], b[0]) == 0 {
            lemma_order_comps(a.drop_first(), b.drop_first());
            if a.drop_first() == b.drop_first() {
                assert(a =~= seq![a[0]] + a.drop_first());
                assert(b =~= seq![b[0]] + b.drop_first());
            }
        } else {
            assert(a[0] != b[0]);
        }
    } else if a.len() == 0 && b.len() == 0 {
        assert(a =~= b);
    }
}

pub fn compare_char_seqs(a: &Vec<char>, b: &Vec<char>) -> (r: i8)
    ensures
        r as int == order_chars(a@, b@),
{
    let mut i: usize = 0;
    assert(a@.skip(0) =~= a@);
    assert(b@.skip(0) =~= b@);
    while i < a.len() && i < b.len()
        invariant
            i <= a@.len(),
            i <= b@.len(),
            order_chars(a@, b@) == order_chars(a@.skip(i as int), b@.skip(i as int)),
        decreases a.len() - i,
    {
        if a[i] < b[i] {
            return -1;
        }
        if a[i] > b[i] {
            return 1;
        }
        assert(a@.skip(i as int).drop_first() =~= a@.skip(i + 1));
        assert(b@.skip(i as int).drop_first() =~= b@.skip(i + 1));
        i += 1;
    }
    if i == a.len() {
        if i == b.len() {
            0
        } else {
            -1
        }
    } else {
        1
    }
}

fn comp_rank_of(c: &PathComp) -> (r: u8)
    ensures
        r as int == comp_rank(c@),
{
    match c {
        PathComp::RootDir => 0,
        PathComp::CurDir => 1,
        PathComp::ParentDir => 2,
        PathComp::Normal(_) => 3,
    }
}

fn compare_path_comp(x: &PathComp, y: &PathComp) -> (r: i8)
    ensures
        r as int == order_comp(x@, y@),
{
    let rx = comp_rank_of(x);
    let ry = comp_rank_of(y);
    if rx < ry {
        -1
    } else if rx > ry {
        1
    } else {
        match (x, y) {
            (PathComp::Normal(a), PathComp::Normal(b)) => compare_char_seqs(a, b),
            _ => 0,
        }
    }
}

/// Compares component sequences (see [`order_comps`]).
pub fn compare_components(a: &Vec<PathComp>, b: &Vec<PathComp>) -> (r: i8)
    ensures
        r as int == order_comps(comps_view(a@), comps_view(b@)),
{
    let ghost av = comps_view(a@);
    let ghost bv = comps_view(b@);
    let mut i: usize = 0;
    assert(av.skip(0) =~= av);
    assert(bv.skip(0) =~= bv);
    while i < a.len() && i < b.len()
        invariant
            i <= a@.len(),
            i <= b@.len(),
            av == comps_view(a@),
            bv == comps_view(b@),
            order_comps(av, bv) == order_comps(av.skip(i as int), bv.skip(i as int)),
        decreases a.len() - i,
    {
        let c = compare_path_comp(&a[i], &b[i]);
        if c != 0 {
            return c;
        }
        assert(av.skip(i as int).drop_first() =~= av.skip(i + 1));
        assert(bv.skip(i as int).drop_first() =~= bv.skip(i + 1));
        i += 1;
    }
    if i == a.len() {
        if i == b.len() {
            0
        } else {
            -1
        }
    } else {
        1
    }
}

/// Components of `base` form a prefix of those of `p`, as `Path::starts_with` tests.
pub open spec fn path_starts_with(p: Seq<char>, base: Seq<char>) -> bool {
    components(base).len() <= components(p).len() && components(p).subrange(
        0,
        components(base).len() as int,
    ) == components(base)
}

/// Whether `p` lies under `base` (see [`path_starts_with`]).
pub fn starts_with_path(p: &str, base: &str) -> (r: bool)
    ensures
        r == path_starts_with(p@, base@),
{
    let pc = path_components(&chars_of(p));
    let bc = path_components(&chars_of(base));
    let ghost pv = comps_view(pc@);
    let ghost bv = comps_view(bc@);
    if bc.len() > pc.len() {
        return false;
    }
    let mut i: usize = 0;
    while i < bc.len()
        invariant
            i <= bc@.len() <= pc@.len(),
            pv == comps_view(pc@),
            bv == comps_view(bc@),
            pv == components(p@),
            bv == components(base@),
            forall|j: int| 0 <= j < i ==> pv[j] == bv[j],
        decreases bc.len() - i,
    {
        let c = compare_path_comp(&pc[i], &bc[i]);
        proof {
            lemma_order_comp(pv[i as int], bv[i as int]);
        }
        if c != 0 {
            assert(pv.subrange(0, bv.len() as int)[i as int] != bv[i as int]);
            return false;
        }
        i += 1;
    }
    assert(pv.subrange(0, bv.len() as int) =~= bv);
    true
}

pub proof fn lemma_order_chars_trans(a: Seq<char>, b: Seq<char>, c: Seq<char>)
    requires
        order_chars(a, b) < 0,
        order_chars(b, c) < 0,
    ensures
        order_chars(a, c) < 0,
    decreases a.len(),
{
    if a.len() > 0 && b.len() > 0 && c.len() > 0 && a[0] == b[0] && b[0] == c[0] {
        lemma_order_chars_trans(a.drop_first(), b.drop_first(), c.drop_first());
    }
}

pub proof fn lemma_order_comp_trans(x: Comp, y: Comp, z: Comp)
    requires
        order_comp(x, y) < 0,
        order_comp(y, z) < 0,
    ensures
        order_comp(x, z) < 0,
{
    match (x, y, z) {
        (Comp::Normal(a), Comp::Normal(b), Comp::Normal(c)) => lemma_order_chars_trans(a, b, c),
        _ => {},
    }
}

pub proof fn lemma_order_comps_trans(a: Seq<Comp>, b: Seq<Comp>, c: Seq<Comp>)
    requires
        order_comps(a, b) < 0,
        order_comps(b, c) < 0,
    ensures
        order_comps(a, c) < 0,
    decreases a.len(),
{
    if a.len() > 0 && b.len() > 0 && c.len() > 0 {
        lemma_order_comp(a[0], b[0]);
        lemma_order_comp(b[0], c[0]);
        lemma_order_comp(a[0], c[0]);
        if order_comp(a[0], b[0]) < 0 && order_comp(b[0], c[0]) < 0 {
            lemma_order_comp_trans(a[0], b[0], c[0]);
        } else if order_comp(a[0], b[0]) == 0 && order_comp(b[0], c[0]) == 0 {
            lemma_order_comps_trans(a.drop_first(), b.drop_first(), c.drop_first());
        }
    }
}

/// Path order is a strict total order on paths taken up to [`path_eq`].
pub proof fn lemma_path_order(a: Seq<char>, b: Seq<char>)
    ensures
        path_order(a, b) == -path_order(b, a),
        (path_order(a, b) == 0) == path_eq(a, b),
        -1 <= path_order(a, b) <= 1,
{
    lemma_order_comps(components(a), components(b));
}

pub proof fn lemma_path_order_trans(a: Seq<char>, b: Seq<char>, c: Seq<char>)
    requires
        path_order(a, b) < 0,
        path_order(b, c) < 0,
    ensures
        path_order(a, c) < 0,
{
    lemma_order_comps_trans(components(a), components(b), components(c));
}

/// Compares two paths as `Ord for Path` does (see [`path_order`]).
pub fn compare_paths(a: &str, b: &str) -> (r: i8)
    ensures
        r as int == path_order(a@, b@),
        -1 <= r <= 1,
        (r == 0) == path_eq(a@, b@),
{
    let ac = path_components(&chars_of(a));
    let bc = path_components(&chars_of(b));
    let r = compare_components(&ac, &bc);
    proof {
        lemma_path_order(a@, b@);
    }
    r
}

// ---------------------------------------------------------------------------
// Stripping a prefix
// ---------------------------------------------------------------------------
/// A segment that is a component: not empty and not `.`.
pub open spec fn is_named(seg: Seq<char>) -> bool {
    seg.len() > 0 && seg != seq!['.']
}

/// Index of the first `/` of `t`, or its length.
pub open spec fn slash_pos(t: Seq<char>) -> int
    decreases t.len(),
{
    if t.len() == 0 {
        0
    } else if t[0] == '/' {
        0
    } else {
        1 + slash_pos(t.drop_first())
    }
}

pub proof fn lemma_slash_pos(t: Seq<char>)
    ensures
        0 <= slash_pos(t) <= t.len(),
        slash_pos(t) < t.len() ==> t[slash_pos(t)] == '/',
        forall|j: int| 0 <= j < slash_pos(t) ==> t[j] != '/',
    decreases t.len(),
{
    if t.len() > 0 && t[0] != '/' {
        lemma_slash_pos(t.drop_first());
        assert forall|j: int| 0 <= j < slash_pos(t) implies t[j] != '/' by {
            if j > 0 {
                assert(t[j] == t.drop_first()[j - 1]);
            }
        }
        if slash_pos(t) < t.len() {
            assert(t[slash_pos(t)] == t.drop_first()[slash_pos(t) - 1]);
        }
    }
}

/// The text after the first segment and its slash.
pub open spec fn after_seg(t: Seq<char>) -> Seq<char> {
    if slash_pos(t) < t.len() {
        t.subrange(slash_pos(t) + 1, t.len() as int)
    } else {
        Seq::empty()
    }
}

/// The body text after `n` components, with the empty and `.` segments before them.
pub open spec fn skip_named(t: Seq<char>, n: nat) -> Seq<char>
    decreases t.len(),
{
    if n == 0 || t.len() == 0 {
        t
    } else {
        proof {
            lemma_slash_pos(t);
        }
        if is_named(t.subrange(0, slash_pos(t))) {
            skip_named(after_seg(t), (n - 1) as nat)
        } else {
            skip_named(after_seg(t), n)
        }
    }
}

/// The text without leading empty and `.` segments.
pub open spec fn trim_left(t: Seq<char>) -> Seq<char>
    decreases t.len(),
{
    if t.len() == 0 {
        t
    } else {
        proof {
            lemma_slash_pos(t);
        }
        if is_named(t.subrange(0, slash_pos(t))) {
            t
        } else {
            trim_left(after_seg(t))
        }
    }
}

/// Index of the last `/` at or after `keep`, or -1.
pub open spec fn last_slash(t: Seq<char>, keep: int) -> int
    decreases t.len(),
{
    if t.len() <= keep || t.len() == 0 {
        -1
    } else if t.last() == '/' {
        t.len() - 1
    } else {
        last_slash(t.drop_last(), keep)
    }
}

pub proof fn lemma_last_slash(t: Seq<char>, keep: int)
    requires
        0 <= keep,
    ensures
        last_slash(t, keep) == -1 || keep <= last_slash(t, keep) < t.len(),
        last_slash(t, keep) >= 0 ==> t[last_slash(t, keep)] == '/',
        forall|j: int| keep <= j < t.len() && j > last_slash(t, keep) ==> t[j] != '/',
    decreases t.len(),
{
    if t.len() > keep && t.last() != '/' {
        lemma_last_slash(t.drop_last(), keep);
        assert forall|j: int| keep <= j < t.len() && j > last_slash(t, keep) implies t[j] != '/' by {
            if j < t.len() - 1 {
                assert(t[j] == t.drop_last()[j]);
            }
        }
        if last_slash(t, keep) >= 0 {
            assert(t[last_slash(t, keep)] == t.drop_last()[last_slash(t, keep)]);
        }
    }
}

/// The text without trailing empty and `.` segments, keeping its first `keep`
/// characters.
pub open spec fn trim_right(t: Seq<char>, keep: int) -> Seq<char>
    decreases t.len(),
{
    if t.len() <= keep || keep < 0 {
        t
    } else {
        let k = last_slash(t, keep);
        let comp = if k >= 0 {
            t.subrange(k + 1, t.len() as int)
        } else {
            t.subrange(keep, t.len() as int)
        };
        if is_named(comp) {
            t
        } else {
            proof {
                lemma_last_slash(t, keep);
            }
            trim_right(
                t.subrange(
                    0,
                    if k >= 0 {
                        k
                    } else {
                        keep
                    },
                ),
                keep,
            )
        }
    }
}

/// The characters before the body: a root or a leading current directory.
pub open spec fn lead_len(p: Seq<char>) -> int {
    if has_root(p) || starts_with_cur_dir(p) {
        1
    } else {
        0
    }
}

/// The rest of `p` after the components of `base`, as `Path::strip_prefix` gives it
/// (when `base`'s components start `p`'s).
pub open spec fn stripped_text(p: Seq<char>, base: Seq<char>) -> Seq<char> {
    if components(base).len() == 0 {
        trim_right(p, lead_len(p))
    } else {
        let body = p.subrange(lead_len(p), p.len() as int);
        trim_right(trim_left(skip_named(body, named_segments(base).len())), 0)
    }
}

fn slash_from(t: &Vec<char>, start: usize) -> (r: usize)
    requires
        start <= t@.len(),
    ensures
        r == start + slash_pos(t@.subrange(start as int, t@.len() as int)),
        start <= r <= t@.len(),
{
    let ghost u = t@.subrange(start as int, t@.len() as int);
    proof {
        lemma_slash_pos(u);
    }
    let mut i: usize = start;
    while i < t.len() && t[i] != '/'
        invariant
            start <= i <= t@.len(),
            u == t@.subrange(start as int, t@.len() as int),
            forall|j: int| start <= j < i ==> t@[j] != '/',
            0 <= slash_pos(u) <= u.len(),
            slash_pos(u) < u.len() ==> u[slash_pos(u)] == '/',
            forall|j: int| 0 <= j < slash_pos(u) ==> u[j] != '/',
        decreases t.len() - i,
    {
        i += 1;
    }
    proof {
        let sp = slash_pos(u);
        if start + sp < i {
            assert(u[sp] == t@[start + sp]);
        } else if start + sp > i {
            assert(u[i - start] == t@[i as int]);
        }
    }
    i
}

proof fn lemma_after_seg(t: Seq<char>, start: int, j: int)
    requires
        0 <= start <= t.len(),
        j == start + slash_pos(t.subrange(start, t.len() as int)),
        start <= j <= t.len(),
    ensures
        t.subrange(start, t.len() as int).subrange(0, slash_pos(t.subrange(start, t.len() as int)))
            == t.subrange(start, j),
        after_seg(t.subrange(start, t.len() as int)) == if j < t.len() {
            t.subrange(j + 1, t.len() as int)
        } else {
            t.subrange(t.len() as int, t.len() as int)
        },
{
    let u = t.subrange(start, t.len() as int);
    assert(u.subrange(0, j - start) =~= t.subrange(start, j));
    if j < t.len() {
        assert(u.subrange(j - start + 1, u.len() as int) =~= t.subrange(j + 1, t.len() as int));
    } else {
        assert(Seq::<char>::empty() =~= t.subrange(t.len() as int, t.len() as int));
    }
}

fn named_seg(t: &Vec<char>, start: usize, end: usize) -> (r: bool)
    requires
        start <= end <= t@.len(),
    ensures
        r == is_named(t@.subrange(start as int, end as int)),
{
    if end == start {
        return false;
    }
    if end == start + 1 && t[start] == '.' {
        assert(t@.subrange(start as int, end as int) =~= seq!['.']);
        return false;
    }
    proof {
        let seg = t@.subrange(start as int, end as int);
        if end == start + 1 {
            assert(seg[0] == t@[start as int]);
            assert(seg != seq!['.']) by {
                if seg == seq!['.'] {
                    assert(seg[0] == '.');
                }
            }
        } else {
            assert(seg.len() != seq!['.'].len());
        }
    }
    true
}

/// The rest of a path after a prefix of its components (see [`stripped_text`]).
pub fn strip_prefix_text(p: &str, base: &str) -> (r: String)
    ensures
        r@ == stripped_text(p@, base@),
{
    let t = chars_of(p);
    let bc = path_components(&chars_of(base));
    let lead: usize = if (t.len() > 0 && t[0] == '/') || (t.len() > 0 && t[0] == '.' && (t.len() == 1 || t[1] == '/')) {
        1
    } else {
        0
    };
    let (mut lo, mut hi): (usize, usize) = (if bc.len() > 0 {
        lead
    } else {
        0
    }, t.len());
    if bc.len() > 0 {
        let n = path_segments(&chars_of(base)).len();
        let ghost body = t@.subrange(lead as int, t@.len() as int);
        // Skip `n` components.
        let mut m: usize = n;
        while m > 0 && lo < t.len()
            invariant
                lead <= lo <= t@.len(),
                hi == t@.len(),
                skip_named(body, n as nat) == skip_named(t@.subrange(lo as int, t@.len() as int), m as nat),
            decreases t.len() - lo,
        {
            let j = slash_from(&t, lo);
            proof {
                lemma_after_seg(t@, lo as int, j as int);
            }
            let named = named_seg(&t, lo, j);
            if named {
                m -= 1;
            }
            lo = if j < t.len() {
                j + 1
            } else {
                t.len()
            };
        }
        // Trim leading empty and `.` segments.
        let ghost skipped = t@.subrange(lo as int, t@.len() as int);
        assert(skip_named(body, n as nat) == skipped);
        loop
            invariant
                lead <= lo <= t@.len(),
                hi == t@.len(),
                trim_left(skipped) == trim_left(t@.subrange(lo as int, t@.len() as int)),
            ensures
                lo <= t@.len(),
                trim_left(skipped) == t@.subrange(lo as int, t@.len() as int),
            decreases t.len() - lo,
        {
            if lo == t.len() {
                break;
            }
            let j = slash_from(&t, lo);
            proof {
                lemma_after_seg(t@, lo as int, j as int);
            }
            if named_seg(&t, lo, j) {
                break;
            }
            lo = if j < t.len() {
                j + 1
            } else {
                t.len()
            };
        }
    }
    // Trim trailing empty and `.` segments, keeping `keep` characters.
    let keep: usize = if bc.len() > 0 {
        lo
    } else {
        lead
    };
    let ghost start_text = t@.subrange(lo as int, t@.len() as int);
    assert(t@.subrange(0, t@.len() as int) =~= t@);
    loop
        invariant
            keep <= hi <= t@.len(),
            lo <= keep,
            bc.len() > 0 ==> keep == lo,
            trim_right(t@.subrange(lo as int, t@.len() as int), (keep - lo) as int) == trim_right(
                t@.subrange(lo as int, hi as int),
                (keep - lo) as int,
            ),
        ensures
            trim_right(t@.subrange(lo as int, t@.len() as int), (keep - lo) as int) == t@.subrange(
                lo as int,
                hi as int,
            ),
        decreases hi,
    {
        if hi <= keep {
            break;
        }
        // Last slash at or after `keep`.
        let mut k: usize = hi;
        while k > keep && t[k - 1] != '/'
            invariant
                keep <= k <= hi,
                hi <= t@.len(),
                forall|j: int| k <= j < hi ==> t@[j] != '/',
            decreases k,
        {
            k -= 1;
        }
        let (cs, ce): (usize, usize) = if k > keep {
            (k, hi)
        } else {
            (keep, hi)
        };
        proof {
            let u = t@.subrange(lo as int, hi as int);
            let kp = (keep - lo) as int;
            lemma_last_slash(u, kp);
            let ls = last_slash(u, kp);
            if k > keep {
                assert(u[k - 1 - lo] == t@[k - 1]);
                if ls > k - 1 - lo {
                    assert(u[ls] == t@[lo + ls]);
                } else if ls < k - 1 - lo {
                    assert(u[k - 1 - lo] != '/');
                }
                assert(u.subrange(ls + 1, u.len() as int) =~= t@.subrange(k as int, hi as int));
            } else {
                if ls >= 0 {
                    assert(u[ls] == t@[lo + ls]);
                }
                assert(u.subrange(kp, u.len() as int) =~= t@.subrange(keep as int, hi as int));
            }
        }
        let named = named_seg(&t, if k > keep { k } else { keep }, hi);
        if named {
            break;
        }
        proof {
            let u = t@.subrange(lo as int, hi as int);
            let kp = (keep - lo) as int;
            let ls = last_slash(u, kp);
            let cut = if ls >= 0 { ls } else { kp };
            assert(u.subrange(0, cut) =~= t@.subrange(lo as int, lo + cut));
        }
        hi = if k > keep {
            k - 1
        } else {
            keep
        };
    }
    let mut out: Vec<char> = crate::text::slice_chars(&t, lo, hi);
    proof {
        if bc.len() > 0 {
            assert(keep - lo == 0);
        } else {
            assert(lo == 0);
            assert(t@.subrange(0, t@.len() as int) =~= t@);
        }
    }
    crate::text::string_of(out.as_slice())
}

/// No character of `s` is a slash.
pub open spec fn slash_free(s: Seq<char>) -> bool {
    forall|i: int| 0 <= i < s.len() ==> s[i] != '/'
}

proof fn lemma_seg_scan_slash_free(p: Seq<char>)
    ensures
        slash_free(seg_scan(p).1),
        forall|j: int| 0 <= j < seg_scan(p).0.len() ==> slash_free(#[trigger] seg_scan(p).0[j]),
    decreases p.len(),
{
    if p.len() > 0 {
        lemma_seg_scan_slash_free(p.drop_last());
        let prev = seg_scan(p.drop_last());
        if p.last() != '/' {
            assert forall|i: int| 0 <= i < prev.1.push(p.last()).len() implies prev.1.push(p.last())[i] != '/' by {
                if i < prev.1.len() {
                    assert(prev.1.push(p.last())[i] == prev.1[i]);
                }
            }
        } else if prev.1.len() > 0 && prev.1 != seq!['.'] {
            assert forall|j: int| 0 <= j < prev.0.push(prev.1).len() implies slash_free(
                #[trigger] prev.0.push(prev.1)[j],
            ) by {
                if j < prev.0.len() {
                    assert(prev.0.push(prev.1)[j] == prev.0[j]);
                }
            }
        }
    }
}

/// The extension of a path holds no slash.
pub proof fn lemma_extension_slash_free(p: Seq<char>)
    ensures
        match extension(p) {
            Some(e) => slash_free(e),
            None => true,
        },
{
    lemma_seg_scan_slash_free(p);
    let s = seg_scan(p);
    let n = named_segments(p);
    assert forall|j: int| 0 <= j < n.len() implies slash_free(#[trigger] n[j]) by {
        if j < s.0.len() {
            assert(n[j] == s.0[j]);
        }
    }
    if let Some(name) = file_name(p) {
        assert(name == n.last());
        assert(slash_free(name));
        lemma_last_dot_bounds(name);
        if last_dot(name) > 0 {
            let e = name.subrange(last_dot(name) + 1, name.len() as int);
            assert forall|i: int| 0 <= i < e.len() implies e[i] != '/' by {
                assert(e[i] == name[last_dot(name) + 1 + i]);
            }
        }
    }
}

proof fn lemma_seg_scan_append(a: Seq<char>, b: Seq<char>)
    requires
        slash_free(b),
    ensures
        seg_scan(a + b) == (seg_scan(a).0, seg_scan(a).1 + b),
    decreases b.len(),
{
    if b.len() == 0 {
        assert(a + b =~= a);
        assert(seg_scan(a).1 + b =~= seg_scan(a).1);
    } else {
        lemma_seg_scan_append(a, b.drop_last());
        assert((a + b).drop_last() =~= a + b.drop_last());
        assert((a + b).last() == b.last());
        assert((seg_scan(a).1 + b.drop_last()).push(b.last()) =~= seg_scan(a).1 + b);
    }
}

/// Joining a directory with a name that holds no slash gives a path inside the directory.
pub proof fn lemma_join_starts_with(dir: Seq<char>, name: Seq<char>)
    requires
        dir.len() > 0,
        slash_free(name),
    ensures
        path_starts_with(join_spec(dir, name), dir),
{
    let whole = join_spec(dir, name);
    assert(!has_root(name));
    let base = if dir.last() == '/' {
        dir
    } else {
        dir.push('/')
    };
    assert(whole =~= base + name);
    let ns = named_segments(dir);
    if dir.last() == '/' {
        assert(dir.drop_last().push('/') =~= dir);
    } else {
        assert(dir.push('/').drop_last() =~= dir);
    }
    assert(seg_scan(base) == (ns, Seq::<char>::empty()));
    lemma_seg_scan_append(base, name);
    assert(seg_scan(base).1 + name =~= name);
    assert(seg_scan(whole) == (ns, name));
    assert(whole[0] == dir[0]);
    assert(has_root(whole) == has_root(dir));
    if dir.len() == 1 {
        if !has_root(dir) {
            assert(whole[1] == '/');
        }
    } else {
        assert(whole[1] == dir[1]);
    }
    assert(starts_with_cur_dir(whole) == starts_with_cur_dir(dir));
    let cd = components(dir);
    let cw = components(whole);
    let nw = named_segments(whole);
    assert(nw.subrange(0, ns.len() as int) =~= ns);
    assert(cw.subrange(0, cd.len() as int) =~= cd);
}

} // verus!
