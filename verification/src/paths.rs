//! Paths as component lists: lexical normalisation (folding `.` and `..`)
//! and joining an untrusted relative path onto a base directory without
//! leaving it.
use vstd::prelude::*;
use vstd::string::StringExecFns;
use crate::text::push_char;
use std::path::Component;

verus! {

/// One component of a path, as `std::path::Path::components` yields it.
#[derive(Debug)]
pub enum PathComponent {
    /// A Windows prefix such as `C:`.
    Prefix(String),
    /// The root separator.
    RootDir,
    /// `.` (kept by the parser only at the start of a path).
    CurDir,
    /// `..`.
    ParentDir,
    /// A file or directory name.
    Normal(String),
}

/// The mathematical value of a path component.
pub enum PathPart {
    Prefix(Seq<char>),
    RootDir,
    CurDir,
    ParentDir,
    Normal(Seq<char>),
}

impl View for PathComponent {
    type V = PathPart;

    open spec fn view(&self) -> PathPart {
        match self {
            PathComponent::Prefix(p) => PathPart::Prefix(p@),
            PathComponent::RootDir => PathPart::RootDir,
            PathComponent::CurDir => PathPart::CurDir,
            PathComponent::ParentDir => PathPart::ParentDir,
            PathComponent::Normal(n) => PathPart::Normal(n@),
        }
    }
}

/// The parts of a component list.
pub open spec fn parts_of(v: Seq<PathComponent>) -> Seq<PathPart> {
    Seq::new(v.len(), |i: int| v[i]@)
}

/// `PathBuf::push` of one component onto an already normalised path, and
/// `PathBuf::pop` for `..`: a root keeps only the prefix before it, a prefix
/// replaces everything, `..` drops a trailing name (never a root or
/// prefix), and `.` changes nothing.
pub open spec fn push_part(out: Seq<PathPart>, c: PathPart) -> Seq<PathPart> {
    match c {
        PathPart::ParentDir => if out.len() > 0 && out.last() is Normal {
            out.drop_last()
        } else {
            out
        },
        PathPart::CurDir => out,
        PathPart::RootDir => if out.len() > 0 && out[0] is Prefix {
            seq![out[0], PathPart::RootDir]
        } else {
            seq![PathPart::RootDir]
        },
        PathPart::Prefix(p) => seq![PathPart::Prefix(p)],
        PathPart::Normal(n) => out.push(PathPart::Normal(n)),
    }
}

/// Lexical normalisation: the components pushed one by one onto an empty
/// path, `..` popping and `.` skipped.
pub open spec fn normalize_parts(cs: Seq<PathPart>) -> Seq<PathPart>
    decreases cs.len(),
{
    if cs.len() == 0 {
        seq![]
    } else {
        push_part(normalize_parts(cs.drop_last()), cs.last())
    }
}

/// Whether `a` starts with the whole components of `b`.
pub open spec fn parts_start_with(a: Seq<PathPart>, b: Seq<PathPart>) -> bool {
    b.len() <= a.len() && a.subrange(0, b.len() as int) =~= b
}

/// A path with no `.` or `..` component.
pub open spec fn has_no_dots(a: Seq<PathPart>) -> bool {
    forall|i: int| 0 <= i < a.len() ==> !(a[i] is CurDir) && !(a[i] is ParentDir)
}

/// The result of joining `rel` onto `base`: the normalised join, if it still
/// lies within the normalised base.
pub open spec fn safe_join_parts(base: Seq<PathPart>, rel: Seq<PathPart>) -> Option<
    Seq<PathPart>,
> {
    let nb = normalize_parts(base);
    let n = normalize_parts(base + rel);
    if parts_start_with(n, nb) {
        Some(n)
    } else {
        None
    }
}

/// Why a path was refused.
#[derive(Debug, Clone, Copy, PartialEq, Eq, Structural)]
pub enum PathError {
    /// The joined path leaves the base directory.
    OutsideBase,
}

fn copy_component(c: &PathComponent) -> (res: PathComponent)
    ensures
        res@ == c@,
{
    match c {
        PathComponent::Prefix(p) => PathComponent::Prefix(p.clone()),
        PathComponent::RootDir => PathComponent::RootDir,
        PathComponent::CurDir => PathComponent::CurDir,
        PathComponent::ParentDir => PathComponent::ParentDir,
        PathComponent::Normal(n) => PathComponent::Normal(n.clone()),
    }
}

fn push_component(out: &mut Vec<PathComponent>, c: &PathComponent)
    ensures
        parts_of(final(out)@) == push_part(parts_of(old(out)@), c@),
{
    let ghost o = parts_of(old(out)@);
    match c {
        PathComponent::ParentDir => {
            let n = out.len();
            if n > 0 {
                let last_is_normal = match &out[n - 1] {
                    PathComponent::Normal(_) => true,
                    _ => false,
                };
                if last_is_normal {
                    out.pop();
                    assert(parts_of(out@) =~= o.drop_last());
                }
            }
        },
        PathComponent::CurDir => {},
        PathComponent::RootDir => {
            let keep_prefix = out.len() > 0 && match &out[0] {
                PathComponent::Prefix(_) => true,
                _ => false,
            };
            if keep_prefix {
                out.truncate(1);
                out.push(PathComponent::RootDir);
                assert(parts_of(out@) =~= seq![o[0], PathPart::RootDir]);
            } else {
                out.clear();
                out.push(PathComponent::RootDir);
                assert(parts_of(out@) =~= seq![PathPart::RootDir]);
            }
        },
        PathComponent::Prefix(p) => {
            out.clear();
            out.push(PathComponent::Prefix(p.clone()));
            assert(parts_of(out@) =~= push_part(o, c@));
        },
        PathComponent::Normal(n) => {
            out.push(PathComponent::Normal(n.clone()));
            assert(parts_of(out@) =~= o.push(c@));
        },
    }
}

/// Lexical normalisation of a component list: `..` drops the preceding
/// name and `.` is dropped, without touching the file system.
pub fn normalize(path: &Vec<PathComponent>) -> (res: Vec<PathComponent>)
    ensures
        parts_of(res@) == normalize_parts(parts_of(path@)),
{
    let mut out: Vec<PathComponent> = Vec::new();
    let mut i: usize = 0;
    while i < path.len()
        invariant
            i <= path@.len(),
            parts_of(out@) == normalize_parts(parts_of(path@).take(i as int)),
        decreases path@.len() - i,
    {
        push_component(&mut out, &path[i]);
        assert(parts_of(path@).take(i + 1).drop_last() =~= parts_of(path@).take(i as int));
        i = i + 1;
    }
    assert(parts_of(path@).take(path@.len() as int) =~= parts_of(path@));
    out
}

fn same_component(a: &PathComponent, b: &PathComponent) -> (res: bool)
    ensures
        res == (a@ == b@),
{
    match (a, b) {
        (PathComponent::Prefix(x), PathComponent::Prefix(y)) => x.eq(y),
        (PathComponent::RootDir, PathComponent::RootDir) => true,
        (PathComponent::CurDir, PathComponent::CurDir) => true,
        (PathComponent::ParentDir, PathComponent::ParentDir) => true,
        (PathComponent::Normal(x), PathComponent::Normal(y)) => x.eq(y),
        _ => false,
    }
}

/// Whether `a` starts with all components of `b` (`Path::starts_with`).
pub fn starts_with(a: &Vec<PathComponent>, b: &Vec<PathComponent>) -> (res: bool)
    ensures
        res == parts_start_with(parts_of(a@), parts_of(b@)),
{
    if b.len() > a.len() {
        return false;
    }
    let mut i: usize = 0;
    while i < b.len()
        invariant
            i <= b@.len() <= a@.len(),
            forall|j: int| 0 <= j < i ==> a@[j]@ == b@[j]@,
        decreases b@.len() - i,
    {
        if !same_component(&a[i], &b[i]) {
            assert(parts_of(a@).subrange(0, b@.len() as int)[i as int] != parts_of(b@)[i as int]);
            return false;
        }
        i = i + 1;
    }
    assert(parts_of(a@).subrange(0, b@.len() as int) =~= parts_of(b@));
    true
}

/// Joins the untrusted relative path `rel` onto `base` and normalises the
/// result; refuses it unless it still starts with the normalised base.
pub fn safe_join_components(base: &Vec<PathComponent>, rel: &Vec<PathComponent>) -> (res: Result<
    Vec<PathComponent>,
    PathError,
>)
    ensures
        match safe_join_parts(parts_of(base@), parts_of(rel@)) {
            Some(p) => res matches Ok(v) && parts_of(v@) == p,
            None => res == Err::<Vec<PathComponent>, PathError>(PathError::OutsideBase),
        },
{
    let normalized_base = normalize(base);
    let mut joined: Vec<PathComponent> = Vec::new();
    let mut i: usize = 0;
    while i < base.len()
        invariant
            i <= base@.len(),
            joined@.len() == i,
            parts_of(joined@) =~= parts_of(base@).take(i as int),
        decreases base@.len() - i,
    {
        let c = copy_component(&base[i]);
        let ghost before = joined@;
        joined.push(c);
        assert forall|j: int| 0 <= j < i + 1 implies #[trigger] parts_of(joined@)[j] == parts_of(
            base@,
        ).take(i + 1)[j] by {
            if j < i {
                assert(joined@[j] == before[j]);
                assert(parts_of(before)[j] == parts_of(base@).take(i as int)[j]);
            }
        }
        assert(parts_of(joined@) =~= parts_of(base@).take(i + 1));
        i = i + 1;
    }
    let mut k: usize = 0;
    while k < rel.len()
        invariant
            k <= rel@.len(),
            joined@.len() == base@.len() + k,
            parts_of(joined@) =~= parts_of(base@) + parts_of(rel@).take(k as int),
        decreases rel@.len() - k,
    {
        let c = copy_component(&rel[k]);
        let ghost before = joined@;
        joined.push(c);
        assert forall|j: int| 0 <= j < joined@.len() implies #[trigger] parts_of(joined@)[j] == (
        parts_of(base@) + parts_of(rel@).take(k + 1))[j] by {
            if j < joined@.len() - 1 {
                assert(joined@[j] == before[j]);
                assert(parts_of(before)[j] == (parts_of(base@) + parts_of(rel@).take(k as int))[j]);
            }
        }
        assert(parts_of(joined@) =~= parts_of(base@) + parts_of(rel@).take(k + 1));
        k = k + 1;
    }
    assert(parts_of(joined@) =~= parts_of(base@) + parts_of(rel@));
    let normalized = normalize(&joined);
    if !starts_with(&normalized, &normalized_base) {
        return Err(PathError::OutsideBase);
    }
    Ok(normalized)
}

/// A name that every platform reads as one plain component: not empty, not
/// `.` or `..`, and free of slashes, backslashes and colons.
pub open spec fn is_plain_name(n: Seq<char>) -> bool {
    &&& n.len() > 0
    &&& n != seq!['.']
    &&& n != seq!['.', '.']
    &&& forall|i: int| 0 <= i < n.len() ==> n[i] != '/' && n[i] != '\\' && n[i] != ':'
}

/// Whether every name is plain.
pub open spec fn all_plain_names(names: Seq<Seq<char>>) -> bool {
    forall|i: int| 0 <= i < names.len() ==> is_plain_name(#[trigger] names[i])
}

/// Names written with `/` between them.
pub open spec fn slash_joined(names: Seq<Seq<char>>) -> Seq<char>
    decreases names.len(),
{
    if names.len() == 0 {
        seq![]
    } else if names.len() == 1 {
        names[0]
    } else {
        slash_joined(names.drop_last()) + seq!['/'] + names.last()
    }
}

/// A path written from names, with a leading `/` when it is rooted.
pub open spec fn plain_path_text(rooted: bool, names: Seq<Seq<char>>) -> Seq<char> {
    if rooted {
        seq!['/'] + slash_joined(names)
    } else {
        slash_joined(names)
    }
}

/// The components of such a path: the root when it is rooted, then each
/// name.
pub open spec fn plain_path_parts(rooted: bool, names: Seq<Seq<char>>) -> Seq<PathPart> {
    (if rooted {
        seq![PathPart::RootDir]
    } else {
        seq![]
    }) + names.map_values(|n: Seq<char>| PathPart::Normal(n))
}

/// A path segment that every platform reads the same way: not empty and
/// free of slashes, backslashes and colons (a plain name, `.` or `..`).
pub open spec fn is_plain_segment(n: Seq<char>) -> bool {
    &&& n.len() > 0
    &&& forall|i: int| 0 <= i < n.len() ==> n[i] != '/' && n[i] != '\\' && n[i] != ':'
}

/// Whether every segment is plain.
pub open spec fn all_plain_segments(segs: Seq<Seq<char>>) -> bool {
    forall|i: int| 0 <= i < segs.len() ==> is_plain_segment(#[trigger] segs[i])
}

/// The components that segments stand for: `.` is dropped, `..` is the
/// parent component and any other segment is a name.
pub open spec fn segment_parts(segs: Seq<Seq<char>>) -> Seq<PathPart>
    decreases segs.len(),
{
    if segs.len() == 0 {
        seq![]
    } else {
        let rest = segment_parts(segs.drop_last());
        let n = segs.last();
        if n == seq!['.'] {
            rest
        } else if n == seq!['.', '.'] {
            rest.push(PathPart::ParentDir)
        } else {
            rest.push(PathPart::Normal(n))
        }
    }
}

/// The components of a path written from segments (see `plain_path_text`):
/// the root when it is rooted, a leading `.` of a relative path kept as the
/// current directory, then the components of the segments.
pub open spec fn dotted_path_parts(rooted: bool, segs: Seq<Seq<char>>) -> Seq<PathPart> {
    if rooted {
        seq![PathPart::RootDir] + segment_parts(segs)
    } else if segs.len() > 0 && segs[0] == seq!['.'] {
        seq![PathPart::CurDir] + segment_parts(segs)
    } else {
        segment_parts(segs)
    }
}

/// The components of a path as the platform's `Path::components` parses it.
/// On every platform, a path written from plain segments with `/` between
/// them (see `plain_path_text`) has the root (when it starts with `/`), a
/// leading `.` of a relative path as `CurDir`, every `..` as `ParentDir`,
/// every other `.` dropped and every name as a name (`dotted_path_parts`);
/// in particular one written from plain names has the root and those names.
/// Of other paths, whose reading differs between platforms (separators,
/// empty segments, drive and network prefixes), nothing is stated.
#[verifier::external_body]
pub(crate) fn path_components(s: &str) -> (res: Vec<PathComponent>)
    ensures
        forall|rooted: bool, names: Seq<Seq<char>>|
            all_plain_names(names) && s@ == #[trigger] plain_path_text(rooted, names) ==> parts_of(res@)
                == plain_path_parts(rooted, names),
        forall|rooted: bool, segs: Seq<Seq<char>>|
            all_plain_segments(segs) && s@ == #[trigger] plain_path_text(rooted, segs) ==> parts_of(
                res@,
            ) == dotted_path_parts(rooted, segs),
{
    std::path::Path::new(s).components().map(|c| match c {
        Component::Prefix(p) => PathComponent::Prefix(p.as_os_str().to_string_lossy().into_owned()),
        Component::RootDir => PathComponent::RootDir,
        Component::CurDir => PathComponent::CurDir,
        Component::ParentDir => PathComponent::ParentDir,
        Component::Normal(n) => PathComponent::Normal(n.to_string_lossy().into_owned()),
    }).collect()
}

/// What joining the relative path `rel` onto the directory `base` (both as
/// text) may give, `None` for a refusal: a path without `.` or `..` that is
/// the verified join of some component lists; when `base` and `rel` are
/// written from plain segments (names, `.` and `..`), exactly the verified
/// join of their components; when both are written from plain names, the
/// base's components followed by the relative names; and when `base` is
/// written from plain names, nothing outside it.
pub open spec fn safe_join_outcome(base: Seq<char>, rel: Seq<char>, out: Option<Seq<PathPart>>) -> bool {
    &&& (out matches Some(p) ==> has_no_dots(p))
    &&& exists|b: Seq<PathPart>, r: Seq<PathPart>| #[trigger] safe_join_parts(b, r) == out
    &&& forall|rb: bool, sb: Seq<Seq<char>>, sr: Seq<Seq<char>>|
        #![trigger plain_path_text(rb, sb), plain_path_text(false, sr)]
        all_plain_segments(sb) && all_plain_segments(sr) && base == plain_path_text(rb, sb) && rel
            == plain_path_text(false, sr) ==> out == safe_join_parts(
            dotted_path_parts(rb, sb),
            dotted_path_parts(false, sr),
        )
    &&& forall|rb: bool, nb: Seq<Seq<char>>, nr: Seq<Seq<char>>|
        #![trigger plain_path_text(rb, nb), plain_path_text(false, nr)]
        all_plain_names(nb) && all_plain_names(nr) && base == plain_path_text(rb, nb) && rel
            == plain_path_text(false, nr) ==> out == Some(plain_path_parts(rb, nb + nr))
    &&& forall|rb: bool, nb: Seq<Seq<char>>|
        #![trigger plain_path_text(rb, nb)]
        all_plain_names(nb) && base == plain_path_text(rb, nb) ==> (out matches Some(p)
            ==> parts_start_with(p, plain_path_parts(rb, nb)))
}

/// The components of a path written from names are already normalised.
proof fn lemma_plain_parts_normal(rb: bool, nb: Seq<Seq<char>>)
    ensures
        normalize_parts(plain_path_parts(rb, nb)) == plain_path_parts(rb, nb),
{
    let p = plain_path_parts(rb, nb);
    let pre: Seq<PathPart> = if rb {
        seq![PathPart::RootDir]
    } else {
        seq![]
    };
    assert forall|i: int| 0 <= i < p.len() implies match #[trigger] p[i] {
        PathPart::CurDir => false,
        PathPart::ParentDir => false,
        PathPart::Prefix(_) => i == 0,
        PathPart::RootDir => i == 0 || (i == 1 && p[0] is Prefix),
        PathPart::Normal(_) => true,
    } by {
        if i >= pre.len() {
            assert(p[i] == PathPart::Normal(nb[i - pre.len()]));
        }
    }
    lemma_normalize_fixes_normal_form(p);
}

/// Joining relative names onto a path written from names appends them.
proof fn lemma_plain_join(rb: bool, nb: Seq<Seq<char>>, nr: Seq<Seq<char>>)
    ensures
        safe_join_parts(plain_path_parts(rb, nb), plain_path_parts(false, nr)) == Some(
            plain_path_parts(rb, nb + nr),
        ),
{
    let rel = plain_path_parts(false, nr);
    assert forall|i: int| 0 <= i < rel.len() implies rel[i] is Normal by {
        assert(rel[i] == PathPart::Normal(nr[i]));
    }
    lemma_safe_join_accepts_names(plain_path_parts(rb, nb), rel);
    lemma_plain_parts_normal(rb, nb);
    assert(plain_path_parts(rb, nb) + rel =~= plain_path_parts(rb, nb + nr));
}

/// Joins the untrusted relative path `rel` onto the directory `base` after
/// parsing both with the platform's path rules: the normalised join, if it
/// stays within the normalised base (see `safe_join_outcome`).
pub fn safe_join(base: &str, rel: &str) -> (res: Result<Vec<PathComponent>, PathError>)
    ensures
        safe_join_outcome(
            base@,
            rel@,
            match res {
                Ok(v) => Some(parts_of(v@)),
                Err(_) => None,
            },
        ),
{
    let b = path_components(base);
    let r = path_components(rel);
    let res = safe_join_components(&b, &r);
    proof {
        let out = match &res {
            Ok(v) => Some(parts_of(v@)),
            Err(_) => None::<Seq<PathPart>>,
        };
        lemma_normalize_has_no_dots(parts_of(b@) + parts_of(r@));
        lemma_safe_join_stays_inside(parts_of(b@), parts_of(r@));
        assert(safe_join_parts(parts_of(b@), parts_of(r@)) == out);
        assert forall|rb: bool, sb: Seq<Seq<char>>, sr: Seq<Seq<char>>|
            all_plain_segments(sb) && all_plain_segments(sr) && base@ == #[trigger] plain_path_text(
                rb,
                sb,
            ) && rel@ == #[trigger] plain_path_text(false, sr) implies out == safe_join_parts(
            dotted_path_parts(rb, sb),
            dotted_path_parts(false, sr),
        ) by {
            assert(parts_of(b@) == dotted_path_parts(rb, sb));
            assert(parts_of(r@) == dotted_path_parts(false, sr));
        }
        assert forall|rb: bool, nb: Seq<Seq<char>>, nr: Seq<Seq<char>>|
            all_plain_names(nb) && all_plain_names(nr) && base@ == #[trigger] plain_path_text(rb, nb)
                && rel@ == #[trigger] plain_path_text(false, nr) implies out == Some(
            plain_path_parts(rb, nb + nr),
        ) by {
            assert(parts_of(b@) == plain_path_parts(rb, nb));
            assert(parts_of(r@) == plain_path_parts(false, nr));
            lemma_plain_join(rb, nb, nr);
        }
        assert forall|rb: bool, nb: Seq<Seq<char>>|
            all_plain_names(nb) && base@ == #[trigger] plain_path_text(rb, nb) implies (out matches Some(
            p,
        ) ==> parts_start_with(p, plain_path_parts(rb, nb))) by {
            assert(parts_of(b@) == plain_path_parts(rb, nb));
            lemma_plain_parts_normal(rb, nb);
        }
    }
    res
}

/// The last component when it is a name (`Path::file_name`): `None` for a
/// path ending in `..`, a root or a prefix, or an empty path.
pub open spec fn file_name_of(cs: Seq<PathPart>) -> Option<Seq<char>> {
    if cs.len() > 0 && cs.last() is Normal {
        Some(cs.last()->Normal_0)
    } else {
        None
    }
}

/// The last component of a path when it is a name (see `file_name_of`).
pub fn file_name(path: &Vec<PathComponent>) -> (res: Option<String>)
    ensures
        match file_name_of(parts_of(path@)) {
            Some(n) => res matches Some(r) && r@ == n,
            None => res is None,
        },
{
    let n = path.len();
    if n == 0 {
        return None;
    }
    match &path[n - 1] {
        PathComponent::Normal(name) => Some(name.clone()),
        _ => None,
    }
}

/// The path without its last component (`Path::parent`): `None` when it
/// ends in a root or a prefix, or is empty.
pub open spec fn parent_of(cs: Seq<PathPart>) -> Option<Seq<PathPart>> {
    if cs.len() == 0 || cs.last() is RootDir || cs.last() is Prefix {
        None
    } else {
        Some(cs.drop_last())
    }
}

/// The parent of a path (see `parent_of`).
pub fn parent(path: &Vec<PathComponent>) -> (res: Option<Vec<PathComponent>>)
    ensures
        match parent_of(parts_of(path@)) {
            Some(p) => res matches Some(v) && parts_of(v@) == p,
            None => res is None,
        },
{
    let n = path.len();
    if n == 0 {
        return None;
    }
    let ends_at_root = match &path[n - 1] {
        PathComponent::RootDir => true,
        PathComponent::Prefix(_) => true,
        _ => false,
    };
    if ends_at_root {
        return None;
    }
    let mut out: Vec<PathComponent> = Vec::new();
    let mut i: usize = 0;
    while i < n - 1
        invariant
            n == path@.len(),
            n > 0,
            i <= n - 1,
            out@.len() == i,
            forall|j: int| 0 <= j < i ==> #[trigger] out@[j]@ == path@[j]@,
        decreases n - 1 - i,
    {
        out.push(copy_component(&path[i]));
        i = i + 1;
    }
    assert(parts_of(out@) =~= parts_of(path@).drop_last());
    Some(out)
}

/// The text of one component.
pub open spec fn part_text(c: PathPart) -> Seq<char> {
    match c {
        PathPart::Prefix(p) => p,
        PathPart::RootDir => seq!['/'],
        PathPart::CurDir => seq!['.'],
        PathPart::ParentDir => seq!['.', '.'],
        PathPart::Normal(n) => n,
    }
}

/// A path written out with `/` between components (none after a prefix
/// or the root).
pub open spec fn render_parts(cs: Seq<PathPart>) -> Seq<char>
    decreases cs.len(),
{
    if cs.len() == 0 {
        seq![]
    } else if cs.len() == 1 {
        part_text(cs[0])
    } else {
        let prev = cs[cs.len() - 2];
        render_parts(cs.drop_last()) + (if prev is Prefix || prev is RootDir {
            seq![]
        } else {
            seq!['/']
        }) + part_text(cs.last())
    }
}

/// Every `\` replaced by `/`.
pub open spec fn slashify(s: Seq<char>) -> Seq<char> {
    Seq::new(s.len(), |i: int| if s[i] == '\\' { '/' } else { s[i] })
}

/// The text with every backslash turned into a slash (as
/// `str::replace('\\', "/")` gives it).
fn replace_backslashes(s: &str) -> (res: String)
    ensures
        res@ == slashify(s@),
{
    broadcast use vstd::string::axiom_spec_iter;

    let mut out = String::new();
    for c in it: s.chars()
        invariant
            it.seq() == s@,
            out@ == slashify(s@.take(it.index() as int)),
    {
        let ghost k = it.index();
        if c == '\\' {
            push_char(&mut out, '/');
        } else {
            push_char(&mut out, c);
        }
        assert(out@ =~= slashify(s@.take(k + 1)));
    }
    assert(s@.take(s@.len() as int) =~= s@);
    out
}

/// The path of a folder entry as sent on the wire: the part of `path`
/// after `base` (`Path::strip_prefix`), `/`-separated, or `None` when
/// `path` does not start with `base`.
pub open spec fn wire_relative(base: Seq<PathPart>, path: Seq<PathPart>) -> Option<Seq<char>> {
    if parts_start_with(path, base) {
        Some(slashify(render_parts(path.skip(base.len() as int))))
    } else {
        None
    }
}

fn push_text(out: &mut String, c: &PathComponent)
    ensures
        final(out)@ == old(out)@ + part_text(c@),
{
    match c {
        PathComponent::Prefix(p) => out.append(p.as_str()),
        PathComponent::RootDir => crate::text::push_char(out, '/'),
        PathComponent::CurDir => crate::text::push_char(out, '.'),
        PathComponent::ParentDir => {
            crate::text::push_char(out, '.');
            crate::text::push_char(out, '.');
        },
        PathComponent::Normal(n) => out.append(n.as_str()),
    }
    assert(final(out)@ =~= old(out)@ + part_text(c@));
}

/// The wire path of a folder entry (see `wire_relative`).
pub fn wire_relative_path(base: &Vec<PathComponent>, path: &Vec<PathComponent>) -> (res: Option<
    String,
>)
    ensures
        match wire_relative(parts_of(base@), parts_of(path@)) {
            Some(t) => res matches Some(r) && r@ == t,
            None => res is None,
        },
{
    if !starts_with(path, base) {
        return None;
    }
    let start = base.len();
    let ghost rest = parts_of(path@).skip(start as int);
    let mut s = String::new();
    let mut i: usize = start;
    while i < path.len()
        invariant
            start <= i <= path@.len(),
            rest == parts_of(path@).skip(start as int),
            s@ == render_parts(rest.take(i - start)),
        decreases path@.len() - i,
    {
        if i > start {
            let sep = match &path[i - 1] {
                PathComponent::Prefix(_) => false,
                PathComponent::RootDir => false,
                _ => true,
            };
            if sep {
                crate::text::push_char(&mut s, '/');
            }
        }
        push_text(&mut s, &path[i]);
        proof {
            let t = rest.take(i + 1 - start);
            assert(t.drop_last() =~= rest.take(i - start));
            assert(t.last() == path@[i as int]@);
            if i > start {
                assert(t[t.len() - 2] == path@[i - 1]@);
            }
        }
        i = i + 1;
    }
    assert(rest.take(path@.len() - start) =~= rest);
    Some(replace_backslashes(s.as_str()))
}

// ---------- laws ----------

/// A normalised path has no `.` and no `..` components.
pub proof fn lemma_normalize_has_no_dots(cs: Seq<PathPart>)
    ensures
        has_no_dots(normalize_parts(cs)),
    decreases cs.len(),
{
    if cs.len() > 0 {
        lemma_normalize_has_no_dots(cs.drop_last());
        let o = normalize_parts(cs.drop_last());
        let n = normalize_parts(cs);
        assert forall|i: int| 0 <= i < n.len() implies !(n[i] is CurDir) && !(n[i] is ParentDir) by {
            match cs.last() {
                PathPart::ParentDir => {
                    if o.len() > 0 && o.last() is Normal {
                        assert(n[i] == o[i]);
                    }
                },
                PathPart::Normal(_) => {
                    if i < o.len() {
                        assert(n[i] == o[i]);
                    }
                },
                _ => {},
            }
        }
    }
}

/// Normalising a path followed by plain names is the normalised path
/// followed by those names.
pub proof fn lemma_normalize_append_names(cs: Seq<PathPart>, names: Seq<PathPart>)
    requires
        forall|i: int| 0 <= i < names.len() ==> names[i] is Normal,
    ensures
        normalize_parts(cs + names) == normalize_parts(cs) + names,
    decreases names.len(),
{
    if names.len() == 0 {
        assert(cs + names =~= cs);
        assert(normalize_parts(cs) + names =~= normalize_parts(cs));
    } else {
        lemma_normalize_append_names(cs, names.drop_last());
        assert((cs + names).drop_last() =~= cs + names.drop_last());
        assert((cs + names).last() == names.last());
        assert(normalize_parts(cs) + names =~= (normalize_parts(cs) + names.drop_last()).push(
            names.last(),
        ));
    }
}

/// A relative path made only of plain names is always accepted, and lands
/// exactly under the normalised base.
pub proof fn lemma_safe_join_accepts_names(base: Seq<PathPart>, rel: Seq<PathPart>)
    requires
        forall|i: int| 0 <= i < rel.len() ==> rel[i] is Normal,
    ensures
        safe_join_parts(base, rel) == Some(normalize_parts(base) + rel),
{
    lemma_normalize_append_names(base, rel);
    let nb = normalize_parts(base);
    assert((nb + rel).subrange(0, nb.len() as int) =~= nb);
}

/// Whatever `rel` holds, an accepted join lies within the normalised base
/// and has no `.` or `..` left in it.
pub proof fn lemma_safe_join_stays_inside(base: Seq<PathPart>, rel: Seq<PathPart>)
    ensures
        safe_join_parts(base, rel) matches Some(p) ==> parts_start_with(p, normalize_parts(base))
            && has_no_dots(p),
{
    lemma_normalize_has_no_dots(base + rel);
}

/// The shape of a normalised path: an optional prefix, then an optional
/// root, then names only.
pub open spec fn is_normal_form(p: Seq<PathPart>) -> bool {
    forall|i: int|
        0 <= i < p.len() ==> match #[trigger] p[i] {
            PathPart::CurDir => false,
            PathPart::ParentDir => false,
            PathPart::Prefix(_) => i == 0,
            PathPart::RootDir => i == 0 || (i == 1 && p[0] is Prefix),
            PathPart::Normal(_) => true,
        }
}

proof fn lemma_normal_form_of_normalize(cs: Seq<PathPart>)
    ensures
        is_normal_form(normalize_parts(cs)),
    decreases cs.len(),
{
    if cs.len() > 0 {
        lemma_normal_form_of_normalize(cs.drop_last());
        let o = normalize_parts(cs.drop_last());
        let n = normalize_parts(cs);
        assert forall|i: int| 0 <= i < n.len() implies match #[trigger] n[i] {
            PathPart::CurDir => false,
            PathPart::ParentDir => false,
            PathPart::Prefix(_) => i == 0,
            PathPart::RootDir => i == 0 || (i == 1 && n[0] is Prefix),
            PathPart::Normal(_) => true,
        } by {
            match cs.last() {
                PathPart::ParentDir => {
                    if o.len() > 0 && o.last() is Normal {
                        assert(n[i] == o[i]);
                        assert(n[0] == o[0]);
                    }
                },
                PathPart::Normal(_) => {
                    if i < o.len() {
                        assert(n[i] == o[i]);
                        assert(n[0] == o[0]);
                    }
                },
                _ => {},
            }
        }
    }
}

proof fn lemma_normalize_fixes_normal_form(p: Seq<PathPart>)
    requires
        is_normal_form(p),
    ensures
        normalize_parts(p) == p,
    decreases p.len(),
{
    if p.len() > 0 {
        let d = p.drop_last();
        assert forall|i: int| 0 <= i < d.len() implies match #[trigger] d[i] {
            PathPart::CurDir => false,
            PathPart::ParentDir => false,
            PathPart::Prefix(_) => i == 0,
            PathPart::RootDir => i == 0 || (i == 1 && d[0] is Prefix),
            PathPart::Normal(_) => true,
        } by {
            assert(d[i] == p[i]);
            assert(p[i] is RootDir && i == 1 ==> d[0] == p[0]);
        }
        lemma_normalize_fixes_normal_form(d);
        let last = p.last();
        assert(match p[p.len() - 1] {
            PathPart::CurDir => false,
            PathPart::ParentDir => false,
            PathPart::Prefix(_) => p.len() - 1 == 0,
            PathPart::RootDir => p.len() - 1 == 0 || (p.len() - 1 == 1 && p[0] is Prefix),
            PathPart::Normal(_) => true,
        });
        match last {
            PathPart::RootDir => {
                if p.len() == 2 {
                    assert(d =~= seq![p[0]]);
                    assert(p =~= seq![p[0], PathPart::RootDir]);
                } else {
                    assert(p =~= seq![PathPart::RootDir]);
                }
            },
            PathPart::Prefix(_) => {
                assert(p =~= seq![last]);
            },
            _ => {
                assert(d.push(last) =~= p);
            },
        }
    }
}

/// Normalising is idempotent: a normalised path is left as it is.
pub proof fn lemma_normalize_idempotent(cs: Seq<PathPart>)
    ensures
        normalize_parts(normalize_parts(cs)) == normalize_parts(cs),
{
    lemma_normal_form_of_normalize(cs);
    lemma_normalize_fixes_normal_form(normalize_parts(cs));
}

} // verus!
