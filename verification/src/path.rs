//! Unix paths as strings: their components, and joining, normalizing and
//! naming them the way `std::path` does.

use vstd::prelude::*;

use crate::text::{
    chars_of, joined, lemma_split_on_concat, lemma_split_on_no_sep, lemma_split_on_nonempty,
    lemma_split_on_pieces, same_as, slice_chars, split_chars, split_on, string_of, views,
};

verus! {

/// One component of a path.
pub enum CompSpec {
    Root,
    Cur,
    Parent,
    Normal(Seq<char>),
}

/// One component of a path.
pub enum Comp {
    /// The leading `/` of an absolute path.
    Root,
    /// A leading `.` of a relative path.
    Cur,
    /// `..`
    Parent,
    /// Any other name.
    Normal(Vec<char>),
}

impl View for Comp {
    type V = CompSpec;

    open spec fn view(&self) -> CompSpec {
        match self {
            Comp::Root => CompSpec::Root,
            Comp::Cur => CompSpec::Cur,
            Comp::Parent => CompSpec::Parent,
            Comp::Normal(v) => CompSpec::Normal(v@),
        }
    }
}

/// The views of a list of components.
pub open spec fn comp_views(cs: Seq<Comp>) -> Seq<CompSpec> {
    cs.map_values(|c: Comp| c@)
}

/// The components named by the pieces of a path between its `/`s: empty
/// pieces and `.` name none, `..` is the parent, anything else a name.
pub open spec fn piece_comps(pieces: Seq<Seq<char>>) -> Seq<CompSpec>
    decreases pieces.len(),
{
    if pieces.len() == 0 {
        Seq::empty()
    } else {
        let init = piece_comps(pieces.drop_last());
        let p = pieces.last();
        if p.len() == 0 || p == "."@ {
            init
        } else if p == ".."@ {
            init.push(CompSpec::Parent)
        } else {
            init.push(CompSpec::Normal(p))
        }
    }
}

/// Whether the path `s` is absolute (begins with `/`).
pub open spec fn is_absolute(s: Seq<char>) -> bool {
    s.len() > 0 && s[0] == '/'
}

/// The components of `s`, as `Path::components` gives them on Unix: a root
/// for a leading `/`, a current-directory component only for a leading `.`
/// of a relative path, and then the pieces between the `/`s.
pub open spec fn path_components(s: Seq<char>) -> Seq<CompSpec> {
    let pieces = split_on(s, '/');
    let head = if is_absolute(s) {
        seq![CompSpec::Root]
    } else if pieces[0] == "."@ {
        seq![CompSpec::Cur]
    } else {
        Seq::empty()
    };
    head + piece_comps(pieces)
}

/// The text of one component.
pub open spec fn comp_text(c: CompSpec) -> Seq<char> {
    match c {
        CompSpec::Root => "/"@,
        CompSpec::Cur => "."@,
        CompSpec::Parent => ".."@,
        CompSpec::Normal(n) => n,
    }
}

/// `PathBuf::push` on Unix: an absolute `p` replaces `base`; otherwise `p`
/// is appended, after a `/` unless `base` is empty or already ends in one.
pub open spec fn push_path(base: Seq<char>, p: Seq<char>) -> Seq<char> {
    if is_absolute(p) {
        p
    } else if base.len() == 0 || base.last() == '/' {
        base + p
    } else {
        base + "/"@ + p
    }
}

/// The path built by pushing the components `cs` one after another onto an
/// empty path.
pub open spec fn render(cs: Seq<CompSpec>) -> Seq<char>
    decreases cs.len(),
{
    if cs.len() == 0 {
        Seq::empty()
    } else {
        push_path(render(cs.drop_last()), comp_text(cs.last()))
    }
}

/// One step of normalizing: `..` drops the last kept component (if any),
/// `.` is dropped, anything else is kept.
pub open spec fn normalize_step(kept: Seq<CompSpec>, c: CompSpec) -> Seq<CompSpec> {
    match c {
        CompSpec::Parent => if kept.len() > 0 {
            kept.drop_last()
        } else {
            kept
        },
        CompSpec::Cur => kept,
        _ => kept.push(c),
    }
}

/// The components kept when `cs` is normalized from left to right.
pub open spec fn normalized_comps(cs: Seq<CompSpec>) -> Seq<CompSpec>
    decreases cs.len(),
{
    if cs.len() == 0 {
        Seq::empty()
    } else {
        normalize_step(normalized_comps(cs.drop_last()), cs.last())
    }
}

/// `s` with its `.` and `..` components resolved textually, without looking
/// at the file system.
pub open spec fn normalized(s: Seq<char>) -> Seq<char> {
    render(normalized_comps(path_components(s)))
}

/// The last component of `s` when it is a name.
pub open spec fn file_name(s: Seq<char>) -> Option<Seq<char>> {
    let cs = path_components(s);
    if cs.len() > 0 {
        match cs.last() {
            CompSpec::Normal(n) => Some(n),
            _ => None,
        }
    } else {
        None
    }
}

/// Whether the components of `base` begin the components of `s`, as in
/// `Path::starts_with`.
pub open spec fn path_starts_with(s: Seq<char>, base: Seq<char>) -> bool {
    let a = path_components(s);
    let b = path_components(base);
    b.len() <= a.len() && a.take(b.len() as int) == b
}

/// The components of the path `v`.
pub fn components_of(v: &Vec<char>) -> (r: Vec<Comp>)
    ensures
        comp_views(r@) == path_components(v@),
{
    let pieces = split_chars(v, '/');
    let ghost pv = split_on(v@, '/');
    proof {
        crate::text::lemma_split_on_nonempty(v@, '/');
    }
    let mut out: Vec<Comp> = Vec::new();
    if v.len() > 0 && v[0] == '/' {
        out.push(Comp::Root);
    } else if same_as(&pieces[0], ".") {
        out.push(Comp::Cur);
    }
    let ghost head = comp_views(out@);
    assert(head == path_components(v@).take(head.len() as int)) by {
        assert(views(pieces@)[0] == pieces@[0]@);
    }
    let mut i: usize = 0;
    assert(pv.take(0) =~= Seq::<Seq<char>>::empty());
    assert(comp_views(out@) =~= head + piece_comps(pv.take(0)));
    while i < pieces.len()
        invariant
            views(pieces@) == pv,
            i <= pieces@.len(),
            comp_views(out@) == head + piece_comps(pv.take(i as int)),
            path_components(v@) == head + piece_comps(pv),
        decreases pieces@.len() - i,
    {
        let p = &pieces[i];
        assert(p@ == pv[i as int]);
        assert(pv.take(i + 1).drop_last() =~= pv.take(i as int));
        assert(pv.take(i + 1).last() == pv[i as int]);
        let ghost before = comp_views(out@);
        if p.len() == 0 || same_as(p, ".") {
        } else if same_as(p, "..") {
            out.push(Comp::Parent);
            assert(comp_views(out@) =~= before.push(CompSpec::Parent));
        } else {
            let n = slice_chars(p, 0, p.len());
            assert(n@ =~= p@);
            out.push(Comp::Normal(n));
            assert(comp_views(out@) =~= before.push(CompSpec::Normal(pv[i as int])));
        }
        i = i + 1;
    }
    assert(pv.take(i as int) =~= pv);
    out
}

/// `PathBuf::push` of `p` onto `base`.
pub fn push_onto(base: &mut Vec<char>, p: &Vec<char>)
    ensures
        final(base)@ == push_path(old(base)@, p@),
{
    if p.len() > 0 && p[0] == '/' {
        *base = slice_chars(p, 0, p.len());
        assert(base@ =~= p@);
        return;
    }
    if !(base.len() == 0 || base[base.len() - 1] == '/') {
        base.push('/');
        proof {
            reveal_strlit("/");
            assert(base@ =~= old(base)@ + "/"@);
        }
    }
    let ghost mid = base@;
    let mut i: usize = 0;
    while i < p.len()
        invariant
            i <= p@.len(),
            base@ == mid + p@.take(i as int),
        decreases p@.len() - i,
    {
        base.push(p[i]);
        i = i + 1;
        assert(base@ =~= mid + p@.take(i as int));
    }
    assert(p@.take(i as int) =~= p@);
    assert(mid + p@ =~= push_path(old(base)@, p@));
}

/// The text of a component.
pub fn comp_chars(c: &Comp) -> (r: Vec<char>)
    ensures
        r@ == comp_text(c@),
{
    match c {
        Comp::Root => chars_of("/"),
        Comp::Cur => chars_of("."),
        Comp::Parent => chars_of(".."),
        Comp::Normal(n) => slice_chars(n, 0, n.len()),
    }
}

/// `Path::join`: `p` pushed onto `base`.
pub fn join(base: &str, p: &str) -> (r: String)
    ensures
        r@ == push_path(base@, p@),
{
    let mut b = chars_of(base);
    let q = chars_of(p);
    push_onto(&mut b, &q);
    string_of(&b)
}

/// Resolves `.` and `..` components of `path` textually, without requiring
/// the path to exist: `..` removes the component before it.
pub fn normalize_path(path: &str) -> (r: String)
    ensures
        r@ == normalized(path@),
{
    let v = chars_of(path);
    let cs = components_of(&v);
    let ghost cv = comp_views(cs@);
    let mut kept: Vec<Comp> = Vec::new();
    let mut i: usize = 0;
    assert(cv.take(0) =~= Seq::<CompSpec>::empty());
    while i < cs.len()
        invariant
            cv == comp_views(cs@),
            i <= cs@.len(),
            comp_views(kept@) == normalized_comps(cv.take(i as int)),
        decreases cs@.len() - i,
    {
        assert(cv.take(i + 1).drop_last() =~= cv.take(i as int));
        assert(cv.take(i + 1).last() == cs@[i as int]@);
        let ghost before = comp_views(kept@);
        match &cs[i] {
            Comp::Parent => {
                if kept.len() > 0 {
                    kept.pop();
                    assert(comp_views(kept@) =~= before.drop_last());
                }
            },
            Comp::Cur => {},
            Comp::Root => {
                kept.push(Comp::Root);
                assert(comp_views(kept@) =~= before.push(CompSpec::Root));
            },
            Comp::Normal(n) => {
                let m = slice_chars(n, 0, n.len());
                assert(m@ =~= n@);
                kept.push(Comp::Normal(m));
                assert(comp_views(kept@) =~= before.push(cs@[i as int]@));
            },
        }
        i = i + 1;
    }
    assert(cv.take(i as int) =~= cv);
    let ghost kv = comp_views(kept@);
    let mut out: Vec<char> = Vec::new();
    let mut j: usize = 0;
    assert(kv.take(0) =~= Seq::<CompSpec>::empty());
    while j < kept.len()
        invariant
            kv == comp_views(kept@),
            j <= kept@.len(),
            out@ == render(kv.take(j as int)),
        decreases kept@.len() - j,
    {
        assert(kv.take(j + 1).drop_last() =~= kv.take(j as int));
        assert(kv.take(j + 1).last() == kept@[j as int]@);
        let t = comp_chars(&kept[j]);
        push_onto(&mut out, &t);
        j = j + 1;
    }
    assert(kv.take(j as int) =~= kv);
    string_of(&out)
}

/// The last component of `path` when it is a name, as `Path::file_name`.
pub fn file_name_of(path: &str) -> (r: Option<Vec<char>>)
    ensures
        match r {
            Some(n) => file_name(path@) == Some(n@),
            None => file_name(path@) is None,
        },
{
    let v = chars_of(path);
    let cs = components_of(&v);
    if cs.len() == 0 {
        return None;
    }
    assert(comp_views(cs@).last() == cs@[cs@.len() - 1]@);
    match &cs[cs.len() - 1] {
        Comp::Normal(n) => Some(slice_chars(n, 0, n.len())),
        _ => None,
    }
}

/// Whether the path `s` begins with the components of `base`.
pub fn has_path_prefix(s: &str, base: &str) -> (r: bool)
    ensures
        r == path_starts_with(s@, base@),
{
    let a = components_of(&chars_of(s));
    let b = components_of(&chars_of(base));
    let ghost av = comp_views(a@);
    let ghost bv = comp_views(b@);
    assert(av == path_components(s@));
    assert(bv == path_components(base@));
    if b.len() > a.len() {
        return false;
    }
    let mut i: usize = 0;
    while i < b.len()
        invariant
            av == comp_views(a@),
            bv == comp_views(b@),
            av == path_components(s@),
            bv == path_components(base@),
            b@.len() <= a@.len(),
            i <= b@.len(),
            forall|j: int| 0 <= j < i ==> av[j] == bv[j],
        decreases b@.len() - i,
    {
        assert(av[i as int] == a@[i as int]@);
        assert(bv[i as int] == b@[i as int]@);
        let same = match (&a[i], &b[i]) {
            (Comp::Root, Comp::Root) => true,
            (Comp::Cur, Comp::Cur) => true,
            (Comp::Parent, Comp::Parent) => true,
            (Comp::Normal(x), Comp::Normal(y)) => crate::text::chars_eq(x, y),
            _ => false,
        };
        if !same {
            assert(av.take(bv.len() as int)[i as int] != bv[i as int]);
            return false;
        }
        i = i + 1;
    }
    assert(av.take(bv.len() as int) =~= bv);
    true
}


/// Whether `k` is the last position of `c` in `s`.
pub open spec fn is_last_at(s: Seq<char>, c: char, k: int) -> bool {
    &&& 0 <= k < s.len()
    &&& s[k] == c
    &&& forall|j: int| k < j < s.len() ==> s[j] != c
}

/// The last position of `c` in `s`, or `-1` when `c` does not occur.
pub open spec fn last_index(s: Seq<char>, c: char) -> int {
    if exists|k: int| is_last_at(s, c, k) {
        choose|k: int| is_last_at(s, c, k)
    } else {
        -1
    }
}

/// The extension of the file name of `s`, as `Path::extension`: the text
/// after its last `.`, unless that `.` is its first character or it has none.
pub open spec fn extension(s: Seq<char>) -> Option<Seq<char>> {
    match file_name(s) {
        None => None,
        Some(n) => {
            let k = last_index(n, '.');
            if k <= 0 {
                None
            } else {
                Some(n.skip(k + 1))
            }
        },
    }
}

/// The file name of `s` without its extension, as `Path::file_stem`.
pub open spec fn file_stem(s: Seq<char>) -> Option<Seq<char>> {
    match file_name(s) {
        None => None,
        Some(n) => {
            let k = last_index(n, '.');
            if k <= 0 {
                Some(n)
            } else {
                Some(n.take(k))
            }
        },
    }
}

pub proof fn lemma_last_index(s: Seq<char>, c: char, i: int)
    requires
        -1 <= i < s.len(),
        forall|j: int| i < j < s.len() ==> s[j] != c,
        i == -1 || s[i] == c,
    ensures
        last_index(s, c) == i,
{
    if i >= 0 {
        assert(is_last_at(s, c, i));
        let k = choose|k: int| is_last_at(s, c, k);
        assert(is_last_at(s, c, k));
        if k < i {
            assert(s[i] != c);
        } else if k > i {
            assert(s[k] != c);
        }
    } else {
        assert forall|k: int| !is_last_at(s, c, k) by {
            if 0 <= k < s.len() {
                assert(s[k] != c);
            }
        }
    }
}

/// The position of the last `.` in `n`, or `n.len()` when there is none.
fn last_dot(n: &Vec<char>) -> (k: usize)
    ensures
        k < n@.len() ==> last_index(n@, '.') == k,
        k >= n@.len() ==> k == n@.len() && last_index(n@, '.') == -1,
{
    let mut i: usize = n.len();
    while i > 0
        invariant
            i <= n@.len(),
            forall|j: int| i <= j < n@.len() ==> n@[j] != '.',
        decreases i,
    {
        if n[i - 1] == '.' {
            proof {
                lemma_last_index(n@, '.', i - 1);
            }
            return i - 1;
        }
        i = i - 1;
    }
    proof {
        lemma_last_index(n@, '.', -1);
    }
    n.len()
}

/// The extension of the file name of `path`, as `Path::extension`.
pub fn extension_of(path: &str) -> (r: Option<Vec<char>>)
    ensures
        match r {
            Some(e) => extension(path@) == Some(e@),
            None => extension(path@) is None,
        },
{
    match file_name_of(path) {
        None => None,
        Some(n) => {
            let k = last_dot(&n);
            if k == 0 || k >= n.len() {
                None
            } else {
                let e = slice_chars(&n, k + 1, n.len());
                assert(e@ =~= n@.skip(k + 1));
                Some(e)
            }
        },
    }
}

/// The file name of `path` without its extension, as `Path::file_stem`.
pub fn file_stem_of(path: &str) -> (r: Option<Vec<char>>)
    ensures
        match r {
            Some(e) => file_stem(path@) == Some(e@),
            None => file_stem(path@) is None,
        },
{
    match file_name_of(path) {
        None => None,
        Some(n) => {
            let k = last_dot(&n);
            if k == 0 || k >= n.len() {
                Some(n)
            } else {
                let e = slice_chars(&n, 0, k);
                assert(e@ =~= n@.take(k as int));
                Some(e)
            }
        },
    }
}


/// A name that a path component can have: not empty, no `/`, neither `.`
/// nor `..`.
pub open spec fn is_proper_name(n: Seq<char>) -> bool {
    n.len() > 0 && !n.contains('/') && n != "."@ && n != ".."@
}

/// Components as `Path::components` yields them: a root only first, and
/// names that are proper.
pub open spec fn is_well_formed(cs: Seq<CompSpec>) -> bool {
    forall|i: int|
        0 <= i < cs.len() ==> match #[trigger] cs[i] {
            CompSpec::Root => i == 0,
            CompSpec::Normal(n) => is_proper_name(n),
            _ => true,
        }
}

/// Components of a normalized path: well formed, and neither `.` nor `..`.
pub open spec fn is_clean(cs: Seq<CompSpec>) -> bool {
    forall|i: int|
        0 <= i < cs.len() ==> match #[trigger] cs[i] {
            CompSpec::Root => i == 0,
            CompSpec::Normal(n) => is_proper_name(n),
            _ => false,
        }
}

/// The names of relative components.
pub open spec fn as_normals(ns: Seq<Seq<char>>) -> Seq<CompSpec> {
    ns.map_values(|n: Seq<char>| CompSpec::Normal(n))
}

/// The texts of components.
pub open spec fn comp_texts(cs: Seq<CompSpec>) -> Seq<Seq<char>> {
    cs.map_values(|c: CompSpec| comp_text(c))
}

/// The path that the components `cs` of a normalized path make: the names
/// separated by `/`, after a `/` when the path is absolute.
pub open spec fn rendered(cs: Seq<CompSpec>) -> Seq<char> {
    if cs.len() > 0 && cs[0] is Root {
        seq!['/'] + joined(comp_texts(cs.skip(1)), seq!['/'])
    } else {
        joined(comp_texts(cs), seq!['/'])
    }
}

pub proof fn lemma_piece_comps_concat(a: Seq<Seq<char>>, b: Seq<Seq<char>>)
    ensures
        piece_comps(a + b) == piece_comps(a) + piece_comps(b),
    decreases b.len(),
{
    if b.len() == 0 {
        assert(a + b =~= a);
        assert(piece_comps(a) + piece_comps(b) =~= piece_comps(a));
    } else {
        assert((a + b).drop_last() =~= a + b.drop_last());
        assert((a + b).last() == b.last());
        lemma_piece_comps_concat(a, b.drop_last());
        let p = b.last();
        if p.len() == 0 || p == "."@ {
        } else if p == ".."@ {
            assert(piece_comps(a) + piece_comps(b) =~= (piece_comps(a) + piece_comps(b.drop_last())).push(
                CompSpec::Parent,
            ));
        } else {
            assert(piece_comps(a) + piece_comps(b) =~= (piece_comps(a) + piece_comps(b.drop_last())).push(
                CompSpec::Normal(p),
            ));
        }
    }
}

pub proof fn lemma_piece_comps_proper(ns: Seq<Seq<char>>)
    requires
        forall|k: int| 0 <= k < ns.len() ==> is_proper_name(#[trigger] ns[k]),
    ensures
        piece_comps(ns) == as_normals(ns),
    decreases ns.len(),
{
    if ns.len() > 0 {
        assert forall|k: int| 0 <= k < ns.drop_last().len() implies is_proper_name(
            #[trigger] ns.drop_last()[k],
        ) by {
            assert(ns.drop_last()[k] == ns[k]);
        }
        lemma_piece_comps_proper(ns.drop_last());
        assert(is_proper_name(ns[ns.len() - 1]));
        assert(as_normals(ns) =~= as_normals(ns.drop_last()).push(CompSpec::Normal(ns.last())));
    }
}

pub proof fn lemma_piece_comps_well_formed(pieces: Seq<Seq<char>>)
    requires
        forall|k: int| 0 <= k < pieces.len() ==> !(#[trigger] pieces[k]).contains('/'),
    ensures
        forall|i: int|
            0 <= i < piece_comps(pieces).len() ==> match #[trigger] piece_comps(pieces)[i] {
                CompSpec::Normal(n) => is_proper_name(n),
                CompSpec::Parent => true,
                _ => false,
            },
    decreases pieces.len(),
{
    if pieces.len() > 0 {
        assert forall|k: int| 0 <= k < pieces.drop_last().len() implies !(
        #[trigger] pieces.drop_last()[k]).contains('/') by {
            assert(pieces.drop_last()[k] == pieces[k]);
        }
        lemma_piece_comps_well_formed(pieces.drop_last());
        assert(!pieces[pieces.len() - 1].contains('/'));
    }
}

pub proof fn lemma_components_well_formed(s: Seq<char>)
    ensures
        is_well_formed(path_components(s)),
{
    let pieces = split_on(s, '/');
    lemma_split_on_pieces(s, '/');
    lemma_split_on_nonempty(s, '/');
    lemma_piece_comps_well_formed(pieces);
    let head = if is_absolute(s) {
        seq![CompSpec::Root]
    } else if pieces[0] == "."@ {
        seq![CompSpec::Cur]
    } else {
        Seq::empty()
    };
    let pc = piece_comps(pieces);
    assert forall|i: int| 0 <= i < path_components(s).len() implies match #[trigger] path_components(
        s,
    )[i] {
        CompSpec::Root => i == 0,
        CompSpec::Normal(n) => is_proper_name(n),
        _ => true,
    } by {
        if i >= head.len() {
            assert(path_components(s)[i] == pc[i - head.len()]);
        }
    }
}

pub proof fn lemma_normalized_clean(cs: Seq<CompSpec>)
    requires
        is_well_formed(cs),
    ensures
        is_clean(normalized_comps(cs)),
    decreases cs.len(),
{
    if cs.len() > 0 {
        assert(is_well_formed(cs.drop_last())) by {
            assert forall|i: int| 0 <= i < cs.drop_last().len() implies match #[trigger] cs.drop_last()[i] {
                CompSpec::Root => i == 0,
                CompSpec::Normal(n) => is_proper_name(n),
                _ => true,
            } by {
                assert(cs.drop_last()[i] == cs[i]);
            }
        }
        lemma_normalized_clean(cs.drop_last());
        let kept = normalized_comps(cs.drop_last());
        let c = cs.last();
        assert(c == cs[cs.len() - 1]);
        match c {
            CompSpec::Root => {
                assert(cs.len() - 1 == 0);
                assert(kept =~= Seq::<CompSpec>::empty());
            },
            _ => {},
        }
        let next = normalized_comps(cs);
        assert forall|i: int| 0 <= i < next.len() implies match #[trigger] next[i] {
            CompSpec::Root => i == 0,
            CompSpec::Normal(n) => is_proper_name(n),
            _ => false,
        } by {
            if i < kept.len() {
                assert(next[i] == kept[i]);
            }
        }
    }
}

pub proof fn lemma_normalized_of_clean(cs: Seq<CompSpec>)
    requires
        is_clean(cs),
    ensures
        normalized_comps(cs) == cs,
    decreases cs.len(),
{
    if cs.len() > 0 {
        assert(is_clean(cs.drop_last())) by {
            assert forall|i: int| 0 <= i < cs.drop_last().len() implies match #[trigger] cs.drop_last()[i] {
                CompSpec::Root => i == 0,
                CompSpec::Normal(n) => is_proper_name(n),
                _ => false,
            } by {
                assert(cs.drop_last()[i] == cs[i]);
            }
        }
        lemma_normalized_of_clean(cs.drop_last());
        assert(cs[cs.len() - 1] == cs.last());
        assert(cs.drop_last().push(cs.last()) =~= cs);
    }
}

pub proof fn lemma_joined_last(ns: Seq<Seq<char>>)
    requires
        ns.len() > 0,
        ns.last().len() > 0,
    ensures
        joined(ns, seq!['/']).len() > 0,
        joined(ns, seq!['/']).last() == ns.last().last(),
{
    if ns.len() == 1 {
        assert(ns[0] == ns.last());
    }
}

pub proof fn lemma_render_clean(cs: Seq<CompSpec>)
    requires
        is_clean(cs),
    ensures
        render(cs) == rendered(cs),
    decreases cs.len(),
{
    reveal_strlit("/");
    if cs.len() > 0 {
        let init = cs.drop_last();
        assert(is_clean(init)) by {
            assert forall|i: int| 0 <= i < init.len() implies match #[trigger] init[i] {
                CompSpec::Root => i == 0,
                CompSpec::Normal(n) => is_proper_name(n),
                _ => false,
            } by {
                assert(init[i] == cs[i]);
            }
        }
        lemma_render_clean(init);
        let c = cs.last();
        assert(c == cs[cs.len() - 1]);
        match c {
            CompSpec::Root => {
                assert(init =~= Seq::<CompSpec>::empty());
                assert(cs.skip(1) =~= Seq::<CompSpec>::empty());
                assert(comp_texts(cs.skip(1)) =~= Seq::<Seq<char>>::empty());
                assert(seq!['/'] + joined(Seq::<Seq<char>>::empty(), seq!['/']) =~= "/"@);
            },
            CompSpec::Normal(n) => {
                assert(is_proper_name(n));
                assert(n[0] != '/') by {
                    assert(!n.contains('/'));
                }
                if init.len() == 0 {
                    assert(comp_texts(cs) =~= seq![n]);
                    assert(Seq::<char>::empty() + n =~= n);
                } else if init[0] is Root {
                    assert(cs[0] is Root);
                    let names0 = comp_texts(init.skip(1));
                    assert(comp_texts(cs.skip(1)) =~= names0.push(n));
                    if init.len() == 1 {
                        assert(names0 =~= Seq::<Seq<char>>::empty());
                        assert(render(init) =~= seq!['/']);
                        assert(seq!['/'] + joined(names0.push(n), seq!['/']) =~= seq!['/'] + n);
                    } else {
                        assert(names0.last() == comp_text(init.last()));
                        assert(init[init.len() - 1] == init.last());
                        assert(init.len() - 1 > 0);
                        lemma_joined_last(names0);
                        assert(names0.push(n).drop_last() =~= names0);
                        assert(render(init).last() == names0.last().last());
                        assert(render(cs) =~= rendered(cs));
                    }
                } else {
                    let names0 = comp_texts(init);
                    assert(comp_texts(cs) =~= names0.push(n));
                    assert(init[init.len() - 1] == init.last());
                    assert(names0.last() == comp_text(init.last()));
                    lemma_joined_last(names0);
                    assert(names0.push(n).drop_last() =~= names0);
                    assert(render(cs) =~= rendered(cs));
                }
            },
            _ => {},
        }
    }
}

pub proof fn lemma_split_joined(ns: Seq<Seq<char>>)
    requires
        ns.len() > 0,
        forall|k: int| 0 <= k < ns.len() ==> !(#[trigger] ns[k]).contains('/'),
    ensures
        split_on(joined(ns, seq!['/']), '/') == ns,
    decreases ns.len(),
{
    if ns.len() == 1 {
        lemma_split_on_no_sep(ns[0], '/');
        assert(seq![ns[0]] =~= ns);
    } else {
        let init = ns.drop_last();
        assert forall|k: int| 0 <= k < init.len() implies !(#[trigger] init[k]).contains('/') by {
            assert(init[k] == ns[k]);
        }
        lemma_split_joined(init);
        lemma_split_on_concat(joined(init, seq!['/']), ns.last(), '/');
        assert(!ns[ns.len() - 1].contains('/'));
        lemma_split_on_no_sep(ns.last(), '/');
        assert(init + seq![ns.last()] =~= ns);
    }
}

pub proof fn lemma_components_of_clean(cs: Seq<CompSpec>)
    requires
        is_clean(cs),
    ensures
        path_components(render(cs)) == cs,
{
    reveal_strlit(".");
    lemma_render_clean(cs);
    let r = rendered(cs);
    if cs.len() == 0 {
        assert(comp_texts(cs) =~= Seq::<Seq<char>>::empty());
        assert(r =~= Seq::<char>::empty());
        assert(split_on(r, '/') == seq![Seq::<char>::empty()]);
        lemma_piece_comps_blank();
        assert(Seq::<char>::empty() != "."@);
        assert(path_components(r) =~= cs);
    } else if cs[0] is Root {
        let rest = cs.skip(1);
        let names = comp_texts(rest);
        assert forall|k: int| 0 <= k < names.len() implies is_proper_name(#[trigger] names[k]) by {
            assert(rest[k] == cs[k + 1]);
        }
        assert(rest =~= as_normals(names)) by {
            assert forall|k: int| 0 <= k < rest.len() implies rest[k] == as_normals(names)[k] by {
                assert(rest[k] == cs[k + 1]);
            }
        }
        let e = Seq::<char>::empty();
        assert(r =~= e + seq!['/'] + joined(names, seq!['/']));
        lemma_split_on_concat(e, joined(names, seq!['/']), '/');
        assert(split_on(e, '/') == seq![e]);
        let ep = seq![e];
        lemma_piece_comps_blank();
        if names.len() == 0 {
            assert(joined(names, seq!['/']) =~= e);
            lemma_piece_comps_concat(ep, ep);
            assert(split_on(r, '/') == ep + ep);
        } else {
            lemma_split_joined(names);
            lemma_piece_comps_concat(ep, names);
            lemma_piece_comps_proper(names);
        }
        assert(is_absolute(r));
        assert(path_components(r) =~= seq![CompSpec::Root] + rest);
        assert(seq![CompSpec::Root] + rest =~= cs);
    } else {
        let names = comp_texts(cs);
        assert forall|k: int| 0 <= k < names.len() implies is_proper_name(#[trigger] names[k]) by {
            assert(names[k] == comp_text(cs[k]));
        }
        assert(cs =~= as_normals(names)) by {
            assert forall|k: int| 0 <= k < cs.len() implies cs[k] == as_normals(names)[k] by {
                assert(names[k] == comp_text(cs[k]));
            }
        }
        lemma_split_joined(names);
        lemma_piece_comps_proper(names);
        assert(names[0].len() > 0);
        lemma_joined_first(names);
        assert(!is_absolute(r)) by {
            assert(!names[0].contains('/'));
        }
        assert(split_on(r, '/')[0] != "."@);
        assert(path_components(r) =~= cs);
    }
}

pub proof fn lemma_piece_comps_blank()
    ensures
        piece_comps(seq![Seq::<char>::empty()]) == Seq::<CompSpec>::empty(),
{
    let ep = seq![Seq::<char>::empty()];
    assert(ep.drop_last() =~= Seq::<Seq<char>>::empty());
    assert(ep.last() == Seq::<char>::empty());
    assert(piece_comps(Seq::<Seq<char>>::empty()) == Seq::<CompSpec>::empty());
}

pub proof fn lemma_joined_first(ns: Seq<Seq<char>>)
    requires
        ns.len() > 0,
        ns[0].len() > 0,
    ensures
        joined(ns, seq!['/']).len() > 0,
        joined(ns, seq!['/'])[0] == ns[0][0],
    decreases ns.len(),
{
    if ns.len() > 1 {
        assert(ns.drop_last()[0] == ns[0]);
        lemma_joined_first(ns.drop_last());
    }
}

/// Normalizing is idempotent: a normalized path is its own normal form.
pub proof fn law_normalize_idempotent(s: Seq<char>)
    ensures
        normalized(normalized(s)) == normalized(s),
{
    let k = normalized_comps(path_components(s));
    lemma_components_well_formed(s);
    lemma_normalized_clean(path_components(s));
    lemma_components_of_clean(k);
    lemma_normalized_of_clean(k);
}

/// A normalized path has no `.` or `..` component, and a root only first.
pub proof fn law_normalized_has_no_dot_components(s: Seq<char>)
    ensures
        is_clean(path_components(normalized(s))),
{
    let k = normalized_comps(path_components(s));
    lemma_components_well_formed(s);
    lemma_normalized_clean(path_components(s));
    lemma_components_of_clean(k);
}


/// How far the components `cs` end above where they start: one up for each
/// name, one down for each `..`.
pub open spec fn height(cs: Seq<CompSpec>) -> int
    decreases cs.len(),
{
    if cs.len() == 0 {
        0
    } else {
        height(cs.drop_last()) + match cs.last() {
            CompSpec::Normal(_) => 1int,
            CompSpec::Parent => -1int,
            _ => 0int,
        }
    }
}

/// Whether the components `cs` never climb above where they start: no
/// prefix holds more `..` than names.
pub open spec fn never_climbs(cs: Seq<CompSpec>) -> bool
    decreases cs.len(),
{
    cs.len() == 0 || (never_climbs(cs.drop_last()) && height(cs) >= 0)
}

proof fn lemma_normalized_keeps_root(cs: Seq<CompSpec>)
    requires
        cs.len() >= 1,
        cs[0] == CompSpec::Root,
        is_well_formed(cs),
        never_climbs(cs.skip(1)),
    ensures
        normalized_comps(cs).len() == 1 + height(cs.skip(1)),
        normalized_comps(cs)[0] == CompSpec::Root,
    decreases cs.len(),
{
    if cs.len() == 1 {
        assert(cs.skip(1) =~= Seq::<CompSpec>::empty());
        assert(cs.drop_last() =~= Seq::<CompSpec>::empty());
        assert(normalized_comps(cs) =~= seq![CompSpec::Root]);
    } else {
        let prev = cs.drop_last();
        assert(prev.skip(1) =~= cs.skip(1).drop_last());
        assert(cs.skip(1).last() == cs.last());
        assert(is_well_formed(prev)) by {
            assert forall|i: int| 0 <= i < prev.len() implies match #[trigger] prev[i] {
                CompSpec::Root => i == 0,
                CompSpec::Normal(n) => is_proper_name(n),
                _ => true,
            } by {
                assert(prev[i] == cs[i]);
            }
        }
        assert(prev[0] == cs[0]);
        lemma_normalized_keeps_root(prev);
        let last_i = cs.len() - 1;
        assert(match cs[last_i] {
            CompSpec::Root => last_i == 0,
            CompSpec::Normal(n) => is_proper_name(n),
            _ => true,
        });
        let kept = normalized_comps(prev);
        assert(normalized_comps(cs) == normalize_step(kept, cs.last()));
        match cs.last() {
            CompSpec::Parent => {
                assert(kept.drop_last()[0] == kept[0]);
            },
            CompSpec::Normal(_) => {
                assert(kept.push(cs.last())[0] == kept[0]);
            },
            _ => {},
        }
    }
}

/// Normalizing keeps an absolute path absolute, as long as no `..` climbs
/// above the root. (One that does drops the root: `/../a` becomes `a`, as
/// `Path::components` folded in this way gives it.)
pub proof fn law_normalize_keeps_absolute(s: Seq<char>)
    requires
        is_absolute(s),
        never_climbs(path_components(s).skip(1)),
    ensures
        is_absolute(normalized(s)),
{
    let cs = path_components(s);
    lemma_components_well_formed(s);
    assert(cs[0] == CompSpec::Root);
    lemma_normalized_keeps_root(cs);
    let k = normalized_comps(cs);
    lemma_normalized_clean(cs);
    lemma_render_clean(k);
    assert(rendered(k)[0] == '/');
}

/// The name pushed last onto a path is its file name.
pub proof fn law_file_name_of_pushed(x: Seq<char>, n: Seq<char>)
    requires
        x.len() > 0,
        is_proper_name(n),
    ensures
        file_name(push_path(x, n)) == Some(n),
{
    lemma_push_components(x, n);
}

/// Pushing a proper name onto a non-empty path adds exactly that name as
/// its last component.
pub proof fn lemma_push_components(x: Seq<char>, n: Seq<char>)
    requires
        x.len() > 0,
        is_proper_name(n),
    ensures
        path_components(push_path(x, n)) == path_components(x).push(CompSpec::Normal(n)),
{
    reveal_strlit("/");
    let e = Seq::<char>::empty();
    assert(!is_absolute(n)) by {
        assert(!n.contains('/'));
    }
    lemma_split_on_no_sep(n, '/');
    let pn = seq![n];
    assert(piece_comps(pn) == seq![CompSpec::Normal(n)]) by {
        assert(pn.drop_last() =~= Seq::<Seq<char>>::empty());
        assert(pn.last() == n);
        assert(piece_comps(Seq::<Seq<char>>::empty()) == Seq::<CompSpec>::empty());
        assert(n.len() > 0 && n != "."@ && n != ".."@);
        assert(Seq::<CompSpec>::empty().push(CompSpec::Normal(n)) =~= seq![CompSpec::Normal(n)]);
    }
    let y = push_path(x, n);
    let base = if x.last() == '/' { x.drop_last() } else { x };
    assert(y =~= base + seq!['/'] + n);
    lemma_split_on_concat(base, n, '/');
    lemma_split_on_nonempty(base, '/');
    let pb = split_on(base, '/');
    lemma_piece_comps_concat(pb, pn);
    if x.last() == '/' {
        assert(x =~= base + seq!['/'] + e);
        lemma_split_on_concat(base, e, '/');
        assert(split_on(e, '/') == seq![e]);
        lemma_piece_comps_concat(pb, seq![e]);
        lemma_piece_comps_blank();
        assert(piece_comps(pb + seq![e]) =~= piece_comps(pb));
        assert((pb + seq![e])[0] == pb[0]);
    }
    assert((pb + pn)[0] == pb[0]);
    assert(y[0] == x[0]);
    assert(piece_comps(pb) + seq![CompSpec::Normal(n)] =~= piece_comps(pb).push(CompSpec::Normal(n)));
    let hx = if is_absolute(x) {
        seq![CompSpec::Root]
    } else if split_on(x, '/')[0] == "."@ {
        seq![CompSpec::Cur]
    } else {
        Seq::empty()
    };
    assert(path_components(x) == hx + piece_comps(split_on(x, '/')));
    assert(path_components(y) =~= path_components(x).push(CompSpec::Normal(n)));
}

} // verus!
