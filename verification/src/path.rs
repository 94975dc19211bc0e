//! Unix path semantics over the characters of a path: components, file name,
//! stem, extension, parent and joining, as `std::path` defines them.

use vstd::prelude::*;
use crate::text::chars_of;

verus! {

/// One component of a path.
pub enum PathComponent {
    RootDir,
    CurDir,
    ParentDir,
    Normal(Seq<char>),
}

/// A component of a path, as held at run time.
#[derive(Debug)]
pub enum PathPart {
    RootDir,
    CurDir,
    ParentDir,
    Normal(Vec<char>),
}

impl View for PathPart {
    type V = PathComponent;

    open spec fn view(&self) -> PathComponent {
        match self {
            PathPart::RootDir => PathComponent::RootDir,
            PathPart::CurDir => PathComponent::CurDir,
            PathPart::ParentDir => PathComponent::ParentDir,
            PathPart::Normal(v) => PathComponent::Normal(v@),
        }
    }
}

/// The components of a list of run-time parts.
pub open spec fn parts_view(v: Seq<PathPart>) -> Seq<PathComponent> {
    Seq::new(v.len(), |i: int| v[i]@)
}

/// The component that a segment between separators stands for: empty segments
/// and `.` vanish, `..` is the parent directory.
pub open spec fn segment_components(seg: Seq<char>) -> Seq<PathComponent> {
    if seg.len() == 0 || seg == seq!['.'] {
        seq![]
    } else if seg == seq!['.', '.'] {
        seq![PathComponent::ParentDir]
    } else {
        seq![PathComponent::Normal(seg)]
    }
}

/// Reading `p` left to right: the components of the finished segments and the
/// segment still open at the end.
pub open spec fn scan(p: Seq<char>) -> (Seq<PathComponent>, Seq<char>)
    decreases p.len(),
{
    if p.len() == 0 {
        (seq![], seq![])
    } else {
        let prev = scan(p.drop_last());
        if p.last() == '/' {
            (prev.0 + segment_components(prev.1), seq![])
        } else {
            (prev.0, prev.1.push(p.last()))
        }
    }
}

/// The path starts at the root.
pub open spec fn has_root(p: Seq<char>) -> bool {
    p.len() > 0 && p[0] == '/'
}

/// The path starts with a `.` segment, which is kept as a current-directory component.
pub open spec fn has_leading_cur_dir(p: Seq<char>) -> bool {
    !has_root(p) && p.len() > 0 && p[0] == '.' && (p.len() == 1 || p[1] == '/')
}

/// `Path::components`: repeated separators and `.` segments are dropped except a
/// leading `.`; a leading `/` is the root.
pub open spec fn components(p: Seq<char>) -> Seq<PathComponent> {
    let body = scan(p).0 + segment_components(scan(p).1);
    if has_root(p) {
        seq![PathComponent::RootDir] + body
    } else if has_leading_cur_dir(p) {
        seq![PathComponent::CurDir] + body
    } else {
        body
    }
}

/// `Path::file_name`: the last component when it is a normal name.
pub open spec fn file_name(p: Seq<char>) -> Option<Seq<char>> {
    let c = components(p);
    if c.len() > 0 && c.last() is Normal {
        Some(c.last()->Normal_0)
    } else {
        None
    }
}

/// Position of the last `.` in `s`, if any.
pub open spec fn last_dot(s: Seq<char>) -> Option<int>
    decreases s.len(),
{
    if s.len() == 0 {
        None
    } else if s.last() == '.' {
        Some(s.len() - 1)
    } else {
        last_dot(s.drop_last())
    }
}

/// `Path::file_stem` of a path whose file name is `name`: the name before its last
/// `.`, or the whole name when it has no `.` other than a leading one.
pub open spec fn stem_of(name: Seq<char>) -> Seq<char> {
    match last_dot(name) {
        Some(k) => if k == 0 { name } else { name.subrange(0, k) },
        None => name,
    }
}

/// `Path::extension` of a path whose file name is `name`: what follows the last `.`,
/// unless that `.` is the first character.
pub open spec fn extension_of(name: Seq<char>) -> Option<Seq<char>> {
    match last_dot(name) {
        Some(k) => if k == 0 { None } else { Some(name.subrange(k + 1, name.len() as int)) },
        None => None,
    }
}

/// `Path::file_stem`.
pub open spec fn file_stem(p: Seq<char>) -> Option<Seq<char>> {
    match file_name(p) {
        Some(n) => Some(stem_of(n)),
        None => None,
    }
}

/// `Path::extension`.
pub open spec fn extension(p: Seq<char>) -> Option<Seq<char>> {
    match file_name(p) {
        Some(n) => extension_of(n),
        None => None,
    }
}

/// `Path::parent`, as components: `None` for an empty path or one that ends at the root.
pub open spec fn parent_components(p: Seq<char>) -> Option<Seq<PathComponent>> {
    let c = components(p);
    if c.len() == 0 || c.last() is RootDir {
        None
    } else {
        Some(c.drop_last())
    }
}

/// The text of one component.
pub open spec fn component_text(c: PathComponent) -> Seq<char> {
    match c {
        PathComponent::RootDir => seq!['/'],
        PathComponent::CurDir => seq!['.'],
        PathComponent::ParentDir => seq!['.', '.'],
        PathComponent::Normal(s) => s,
    }
}

/// `PathBuf::push` of a relative or absolute path on Unix: an absolute `rel` replaces
/// `base`; otherwise a separator is inserted unless `base` is empty or ends with one.
pub open spec fn join(base: Seq<char>, rel: Seq<char>) -> Seq<char> {
    if has_root(rel) {
        rel
    } else if base.len() == 0 {
        rel
    } else if base.last() == '/' {
        base + rel
    } else {
        base + seq!['/'] + rel
    }
}

/// The path text that a list of components forms.
pub open spec fn render(c: Seq<PathComponent>) -> Seq<char>
    decreases c.len(),
{
    if c.len() == 0 {
        seq![]
    } else {
        join(render(c.drop_last()), component_text(c.last()))
    }
}

/// Two paths are the same path (`PathBuf` equality compares components).
pub open spec fn same_path(a: Seq<char>, b: Seq<char>) -> bool {
    components(a) == components(b)
}

fn push_segment(done: &mut Vec<PathPart>, seg: &Vec<char>)
    ensures
        parts_view(final(done)@) == parts_view(old(done)@) + segment_components(seg@),
{
    let n = seg.len();
    if n == 0 || (n == 1 && seg[0] == '.') {
        assert(parts_view(final(done)@) =~= parts_view(old(done)@) + segment_components(seg@)) by {
            if n == 1 {
                assert(seg@ =~= seq!['.']);
            }
        }
    } else if n == 2 && seg[0] == '.' && seg[1] == '.' {
        assert(seg@ =~= seq!['.', '.']);
        done.push(PathPart::ParentDir);
        assert(parts_view(final(done)@) =~= parts_view(old(done)@) + segment_components(seg@));
    } else {
        assert(seg@ != seq!['.']) by {
            if seg@ == seq!['.'] {
                assert(seg@.len() == 1);
            }
        }
        assert(seg@ != seq!['.', '.']) by {
            if seg@ == seq!['.', '.'] {
                assert(seg@.len() == 2 && seg@[0] == '.' && seg@[1] == '.');
            }
        }
        done.push(PathPart::Normal(seg.clone()));
        assert(parts_view(final(done)@) =~= parts_view(old(done)@) + segment_components(seg@));
    }
}

/// `Path::components` of `p`.
pub fn path_components(p: &str) -> (r: Vec<PathPart>)
    ensures
        parts_view(r@) == components(p@),
{
    let c = chars_of(p);
    let n = c.len();
    let mut done: Vec<PathPart> = Vec::new();
    if n > 0 && c[0] == '/' {
        done.push(PathPart::RootDir);
    } else if n > 0 && c[0] == '.' && (n == 1 || c[1] == '/') {
        done.push(PathPart::CurDir);
    }
    let ghost head = parts_view(done@);
    assert(head == (if has_root(p@) {
        seq![PathComponent::RootDir]
    } else if has_leading_cur_dir(p@) {
        seq![PathComponent::CurDir]
    } else {
        seq![]
    }));
    let mut cur: Vec<char> = Vec::new();
    let mut i: usize = 0;
    assert(c@.take(0) =~= Seq::<char>::empty());
    while i < n
        invariant
            n == c@.len(),
            c@ == p@,
            i <= n,
            parts_view(done@) == head + scan(c@.take(i as int)).0,
            cur@ == scan(c@.take(i as int)).1,
        decreases n - i,
    {
        let ghost before = c@.take(i as int);
        assert(c@.take(i + 1).drop_last() =~= before);
        if c[i] == '/' {
            push_segment(&mut done, &cur);
            cur = Vec::new();
            assert(parts_view(done@) =~= head + scan(c@.take(i + 1)).0);
        } else {
            cur.push(c[i]);
        }
        i = i + 1;
    }
    assert(c@.take(n as int) =~= c@);
    push_segment(&mut done, &cur);
    assert(parts_view(done@) =~= components(p@));
    done
}

/// Appends the characters of `src` to `dst`.
pub fn extend_chars(dst: &mut Vec<char>, src: &Vec<char>)
    ensures
        final(dst)@ == old(dst)@ + src@,
{
    let mut i: usize = 0;
    while i < src.len()
        invariant
            i <= src@.len(),
            dst@ == old(dst)@ + src@.take(i as int),
        decreases src@.len() - i,
    {
        dst.push(src[i]);
        i = i + 1;
        assert(dst@ =~= old(dst)@ + src@.take(i as int));
    }
    assert(src@.take(src@.len() as int) =~= src@);
}

/// Whether two character sequences are equal.
pub fn chars_equal(a: &Vec<char>, b: &Vec<char>) -> (r: bool)
    ensures
        r == (a@ == b@),
{
    if a.len() != b.len() {
        return false;
    }
    let mut i: usize = 0;
    while i < a.len()
        invariant
            a@.len() == b@.len(),
            i <= a@.len(),
            forall|j: int| 0 <= j < i ==> a@[j] == b@[j],
        decreases a@.len() - i,
    {
        if a[i] != b[i] {
            return false;
        }
        i = i + 1;
    }
    assert(a@ =~= b@);
    true
}

fn part_equal(a: &PathPart, b: &PathPart) -> (r: bool)
    ensures
        r == (a@ == b@),
{
    match (a, b) {
        (PathPart::RootDir, PathPart::RootDir) => true,
        (PathPart::CurDir, PathPart::CurDir) => true,
        (PathPart::ParentDir, PathPart::ParentDir) => true,
        (PathPart::Normal(x), PathPart::Normal(y)) => chars_equal(x, y),
        _ => false,
    }
}

/// Whether `a` and `b` name the same path (`PathBuf` equality).
pub fn paths_equal(a: &str, b: &str) -> (r: bool)
    ensures
        r == same_path(a@, b@),
{
    let ca = path_components(a);
    let cb = path_components(b);
    if ca.len() != cb.len() {
        assert(parts_view(ca@).len() != parts_view(cb@).len());
        return false;
    }
    let mut i: usize = 0;
    while i < ca.len()
        invariant
            ca@.len() == cb@.len(),
            parts_view(ca@) == components(a@),
            parts_view(cb@) == components(b@),
            i <= ca@.len(),
            forall|j: int| 0 <= j < i ==> parts_view(ca@)[j] == parts_view(cb@)[j],
        decreases ca@.len() - i,
    {
        assert(parts_view(ca@)[i as int] == ca@[i as int]@);
        assert(parts_view(cb@)[i as int] == cb@[i as int]@);
        if !part_equal(&ca[i], &cb[i]) {
            assert(parts_view(ca@)[i as int] != parts_view(cb@)[i as int]);
            assert(parts_view(ca@) != parts_view(cb@));
            return false;
        }
        i = i + 1;
    }
    assert(parts_view(ca@) =~= parts_view(cb@));
    true
}

/// `Path::file_name` of `p`.
pub fn path_file_name(p: &str) -> (r: Option<Vec<char>>)
    ensures
        r matches Some(n) ==> file_name(p@) == Some(n@),
        r is None ==> file_name(p@) is None,
{
    let mut c = path_components(p);
    let ghost cv = parts_view(c@);
    match c.pop() {
        Some(PathPart::Normal(v)) => {
            assert(cv.last() == PathComponent::Normal(v@));
            Some(v)
        },
        Some(x) => {
            assert(cv.last() == x@);
            None
        },
        None => None,
    }
}

pub proof fn lemma_last_dot(s: Seq<char>)
    ensures
        last_dot(s) matches Some(k) ==> 0 <= k < s.len() && s[k] == '.',
    decreases s.len(),
{
    if s.len() > 0 && s.last() != '.' {
        lemma_last_dot(s.drop_last());
    }
}

/// Position of the last `.` in `name`.
pub fn find_last_dot(name: &Vec<char>) -> (r: Option<usize>)
    ensures
        r matches Some(k) ==> last_dot(name@) == Some(k as int),
        r is None ==> last_dot(name@) is None,
{
    let mut i = name.len();
    assert(name@.take(i as int) =~= name@);
    while i > 0
        invariant
            i <= name@.len(),
            last_dot(name@) == last_dot(name@.take(i as int)),
        decreases i,
    {
        assert(name@.take(i as int).drop_last() =~= name@.take(i - 1));
        if name[i - 1] == '.' {
            return Some(i - 1);
        }
        i = i - 1;
    }
    assert(name@.take(0) =~= Seq::<char>::empty());
    None
}

/// `Path::file_stem` of `p`.
pub fn path_file_stem(p: &str) -> (r: Option<Vec<char>>)
    ensures
        r matches Some(n) ==> file_stem(p@) == Some(n@),
        r is None ==> file_stem(p@) is None,
{
    match path_file_name(p) {
        None => None,
        Some(name) => match find_last_dot(&name) {
            Some(k) => {
                proof {
                    lemma_last_dot(name@);
                }
                if k == 0 {
                    Some(name)
                } else {
                    let mut s: Vec<char> = Vec::new();
                    let mut i: usize = 0;
                    while i < k
                        invariant
                            k <= name@.len(),
                            i <= k,
                            s@ == name@.subrange(0, i as int),
                        decreases k - i,
                    {
                        s.push(name[i]);
                        i = i + 1;
                        assert(s@ =~= name@.subrange(0, i as int));
                    }
                    Some(s)
                }
            },
            None => Some(name),
        },
    }
}

/// `Path::extension` of `p`.
pub fn path_extension(p: &str) -> (r: Option<Vec<char>>)
    ensures
        r matches Some(n) ==> extension(p@) == Some(n@),
        r is None ==> extension(p@) is None,
{
    match path_file_name(p) {
        None => None,
        Some(name) => match find_last_dot(&name) {
            Some(k) => {
                proof {
                    lemma_last_dot(name@);
                }
                if k == 0 {
                    None
                } else {
                    let mut s: Vec<char> = Vec::new();
                    let mut i: usize = k + 1;
                    while i < name.len()
                        invariant
                            k < name@.len(),
                            k + 1 <= i <= name@.len(),
                            s@ == name@.subrange(k + 1, i as int),
                        decreases name@.len() - i,
                    {
                        s.push(name[i]);
                        i = i + 1;
                        assert(s@ =~= name@.subrange(k + 1, i as int));
                    }
                    Some(s)
                }
            },
            None => None,
        },
    }
}

/// `PathBuf::push` on character sequences.
pub fn join_chars(base: &Vec<char>, rel: &Vec<char>) -> (r: Vec<char>)
    ensures
        r@ == join(base@, rel@),
{
    let mut out: Vec<char> = Vec::new();
    if rel.len() > 0 && rel[0] == '/' {
        extend_chars(&mut out, rel);
        assert(out@ =~= rel@);
        return out;
    }
    extend_chars(&mut out, base);
    if base.len() > 0 && base[base.len() - 1] != '/' {
        out.push('/');
    }
    extend_chars(&mut out, rel);
    assert(out@ =~= join(base@, rel@));
    out
}

fn part_text(c: &PathPart) -> (r: Vec<char>)
    ensures
        r@ == component_text(c@),
{
    match c {
        PathPart::RootDir => {
            let mut v = Vec::new();
            v.push('/');
            assert(v@ =~= seq!['/']);
            v
        },
        PathPart::CurDir => {
            let mut v = Vec::new();
            v.push('.');
            assert(v@ =~= seq!['.']);
            v
        },
        PathPart::ParentDir => {
            let mut v = Vec::new();
            v.push('.');
            v.push('.');
            assert(v@ =~= seq!['.', '.']);
            v
        },
        PathPart::Normal(s) => {
            let mut v = Vec::new();
            extend_chars(&mut v, s);
            assert(v@ =~= s@);
            v
        },
    }
}

/// The path text that the components `c` form.
pub fn render_parts(c: &Vec<PathPart>) -> (r: Vec<char>)
    ensures
        r@ == render(parts_view(c@)),
{
    let mut out: Vec<char> = Vec::new();
    let mut i: usize = 0;
    while i < c.len()
        invariant
            i <= c@.len(),
            out@ == render(parts_view(c@).take(i as int)),
        decreases c@.len() - i,
    {
        let t = part_text(&c[i]);
        assert(parts_view(c@).take(i + 1).drop_last() =~= parts_view(c@).take(i as int));
        out = join_chars(&out, &t);
        i = i + 1;
    }
    assert(parts_view(c@).take(c@.len() as int) =~= parts_view(c@));
    out
}

/// `Path::parent` of `p`, as components.
pub fn path_parent(p: &str) -> (r: Option<Vec<PathPart>>)
    ensures
        r matches Some(c) ==> parent_components(p@) == Some(parts_view(c@)),
        r is None ==> parent_components(p@) is None,
{
    let mut c = path_components(p);
    let ghost cv = parts_view(c@);
    match c.pop() {
        None => None,
        Some(PathPart::RootDir) => None,
        Some(x) => {
            assert(cv.last() == x@);
            assert(parts_view(c@) =~= cv.drop_last());
            Some(c)
        },
    }
}

/// Calls `std::path::Path::exists`. Whether a path exists depends on the filesystem
/// at the moment of the call, so nothing is stated of the result.
#[verifier::external_body]
pub(crate) fn path_exists(p: &str) -> bool {
    std::path::Path::new(p).exists()
}

} // verus!
