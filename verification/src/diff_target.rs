use vstd::prelude::*;
use crate::text::{chars_eq, str_to_chars};

verus! {

/// Which side of the index a working-tree diff compares.
#[derive(Clone, Copy, Debug, PartialEq, Eq, Structural)]
pub enum DiffArea {
    Staged,
    Unstaged,
}

/// What the diff view shows: a file of the working tree, or a commit (one of its files,
/// or all of it).
#[allow(inconsistent_fields)]
#[derive(Clone, Debug, PartialEq, Eq)]
pub enum DiffTarget {
    WorkingTree { path: String, area: DiffArea },
    Commit { commit_id: String, path: Option<String> },
}

/// The value of a diff target, its texts taken as characters.
#[allow(inconsistent_fields)]
pub enum DiffTargetV {
    WorkingTree { path: Seq<char>, area: DiffArea },
    Commit { commit_id: Seq<char>, path: Option<Seq<char>> },
}

/// The value of a diff target.
pub open spec fn target_v(t: DiffTarget) -> DiffTargetV {
    match t {
        DiffTarget::WorkingTree { path, area } => DiffTargetV::WorkingTree { path: path@, area },
        DiffTarget::Commit { commit_id, path } => DiffTargetV::Commit {
            commit_id: commit_id@,
            path: match path {
                Some(p) => Some(p@),
                None => None,
            },
        },
    }
}

/// The value of an optional diff target.
pub open spec fn opt_target_v(t: Option<DiffTarget>) -> Option<DiffTargetV> {
    match t {
        Some(t) => Some(target_v(t)),
        None => None,
    }
}

/// A target that shows a single file: any working-tree target, and a commit target with a path.
pub open spec fn is_file_target(t: Option<DiffTarget>) -> bool {
    match t {
        Some(DiffTarget::WorkingTree { .. }) => true,
        Some(DiffTarget::Commit { path: Some(_), .. }) => true,
        _ => false,
    }
}

/// The path of the file a target shows, if it shows one.
pub open spec fn target_path(t: Option<DiffTarget>) -> Option<Seq<char>> {
    match t {
        Some(DiffTarget::WorkingTree { path, .. }) => Some(path@),
        Some(DiffTarget::Commit { path: Some(p), .. }) => Some(p@),
        _ => None,
    }
}

/// The pieces of a path other than `.`, in order.
pub open spec fn named_parts(parts: Seq<Seq<char>>) -> Seq<Seq<char>>
    decreases parts.len(),
{
    if parts.len() == 0 {
        Seq::empty()
    } else if parts.last() == seq!['.'] {
        named_parts(parts.drop_last())
    } else {
        named_parts(parts.drop_last()).push(parts.last())
    }
}

/// The components of a `/`-separated path, as a path compares them: `/` first for an
/// absolute path, `.` first for a relative path that starts with `.` as its own piece, then
/// its non-empty pieces other than `.`. Repeated and trailing separators and inner `.`
/// pieces make no difference.
pub open spec fn path_components(p: Seq<char>) -> Seq<Seq<char>> {
    let root = p.len() > 0 && p[0] == '/';
    let cur = !root && p.len() > 0 && p[0] == '.' && (p.len() == 1 || p[1] == '/');
    (if root {
        seq![seq!['/']]
    } else {
        Seq::empty()
    }) + (if cur {
        seq![seq!['.']]
    } else {
        Seq::empty()
    }) + named_parts(crate::slash_tree::slash_parts(p))
}

/// Two paths are the same path: they have the same components.
pub open spec fn same_path(a: Seq<char>, b: Seq<char>) -> bool {
    path_components(a) == path_components(b)
}

fn one_char(c: char) -> (r: Vec<char>)
    ensures
        r@ == seq![c],
{
    let mut r: Vec<char> = Vec::new();
    r.push(c);
    r
}

fn path_components_exec(p: &[char]) -> (out: Vec<Vec<char>>)
    ensures
        crate::slash_tree::parts_view(out@) == path_components(p@),
{
    let parts = crate::slash_tree::slash_parts_exec(p);
    let root = p.len() > 0 && p[0] == '/';
    let cur = !root && p.len() > 0 && p[0] == '.' && (p.len() == 1 || p[1] == '/');
    let mut out: Vec<Vec<char>> = Vec::new();
    if root {
        out.push(one_char('/'));
    }
    if cur {
        out.push(one_char('.'));
    }
    let ghost head = crate::slash_tree::parts_view(out@);
    let ghost pv = crate::slash_tree::parts_view(parts@);
    proof {
        assert(head =~= (if root {
            seq![seq!['/']]
        } else {
            Seq::empty()
        }) + (if cur {
            seq![seq!['.']]
        } else {
            Seq::empty()
        }));
        assert(pv.take(0) =~= Seq::<Seq<char>>::empty());
        assert(crate::slash_tree::parts_view(out@) =~= head + named_parts(pv.take(0)));
    }
    let mut i: usize = 0;
    while i < parts.len()
        invariant
            i <= parts@.len(),
            pv == crate::slash_tree::parts_view(parts@),
            pv.len() == parts@.len(),
            crate::slash_tree::parts_view(out@) == head + named_parts(pv.take(i as int)),
        decreases parts@.len() - i,
    {
        assert(pv.take(i + 1).drop_last() =~= pv.take(i as int));
        assert(pv[i as int] == parts@[i as int]@);
        let ghost before = crate::slash_tree::parts_view(out@);
        let dot = one_char('.');
        if !crate::text::chars_eq(parts[i].as_slice(), dot.as_slice()) {
            let piece = parts[i].clone();
            out.push(piece);
            proof {
                assert(crate::slash_tree::parts_view(out@) =~= before.push(piece@));
            }
        }
        proof {
            assert(dot@ == seq!['.']);
            assert(crate::slash_tree::parts_view(out@) =~= head + named_parts(pv.take(i + 1)));
        }
        i = i + 1;
    }
    proof {
        assert(pv.take(i as int) =~= pv);
    }
    out
}

fn parts_eq(a: &Vec<Vec<char>>, b: &Vec<Vec<char>>) -> (r: bool)
    ensures
        r == (crate::slash_tree::parts_view(a@) == crate::slash_tree::parts_view(b@)),
{
    let ghost av = crate::slash_tree::parts_view(a@);
    let ghost bv = crate::slash_tree::parts_view(b@);
    if a.len() != b.len() {
        assert(av.len() != bv.len());
        return false;
    }
    let mut i: usize = 0;
    while i < a.len()
        invariant
            i <= a@.len(),
            a@.len() == b@.len(),
            av == crate::slash_tree::parts_view(a@),
            bv == crate::slash_tree::parts_view(b@),
            forall|k: int| 0 <= k < i ==> av[k] == bv[k],
        decreases a@.len() - i,
    {
        if !crate::text::chars_eq(a[i].as_slice(), b[i].as_slice()) {
            assert(av[i as int] != bv[i as int]);
            return false;
        }
        i = i + 1;
    }
    assert(av =~= bv);
    true
}

/// Whether two paths are the same path (see `same_path`).
pub fn path_eq(a: &str, b: &str) -> (r: bool)
    ensures
        r == same_path(a@, b@),
{
    let ac = str_to_chars(a);
    let bc = str_to_chars(b);
    let ak = path_components_exec(ac.as_slice());
    let bk = path_components_exec(bc.as_slice());
    parts_eq(&ak, &bk)
}

/// Two diff targets name the same thing: the same side of the same path, or the same
/// commit and the same path (or both no path).
pub open spec fn same_target(a: DiffTargetV, b: DiffTargetV) -> bool {
    match (a, b) {
        (DiffTargetV::WorkingTree { path: p, area: x }, DiffTargetV::WorkingTree { path: q, area: y }) => x
            == y && same_path(p, q),
        (DiffTargetV::Commit { commit_id: c, path: p }, DiffTargetV::Commit { commit_id: d, path: q }) => c
            == d && match (p, q) {
            (Some(p), Some(q)) => same_path(p, q),
            (None, None) => true,
            _ => false,
        },
        _ => false,
    }
}

/// Two optional diff targets name the same thing, or are both none.
pub open spec fn same_opt_target(a: Option<DiffTargetV>, b: Option<DiffTargetV>) -> bool {
    match (a, b) {
        (Some(x), Some(y)) => same_target(x, y),
        (None, None) => true,
        _ => false,
    }
}

/// Whether two texts are equal.
pub fn str_eq(a: &str, b: &str) -> (r: bool)
    ensures
        r == (a@ == b@),
{
    let ac = str_to_chars(a);
    let bc = str_to_chars(b);
    chars_eq(ac.as_slice(), bc.as_slice())
}

fn opt_path_eq(a: &Option<String>, b: &Option<String>) -> (r: bool)
    ensures
        r == (match (a, b) {
            (Some(x), Some(y)) => same_path(x@, y@),
            (None, None) => true,
            _ => false,
        }),
{
    match (a, b) {
        (Some(x), Some(y)) => path_eq(x.as_str(), y.as_str()),
        (None, None) => true,
        _ => false,
    }
}

/// Whether two diff targets name the same thing (see `same_target`).
pub fn diff_target_eq(a: &DiffTarget, b: &DiffTarget) -> (r: bool)
    ensures
        r == same_target(target_v(*a), target_v(*b)),
{
    match (a, b) {
        (DiffTarget::WorkingTree { path: p, area: x }, DiffTarget::WorkingTree { path: q, area: y }) => {
            *x == *y && path_eq(p.as_str(), q.as_str())
        },
        (DiffTarget::Commit { commit_id: c, path: p }, DiffTarget::Commit { commit_id: d, path: q }) => {
            let same_id = str_eq(c.as_str(), d.as_str());
            let same = opt_path_eq(p, q);
            same_id && same
        },
        _ => false,
    }
}

/// Whether two optional diff targets name the same thing (see `same_opt_target`).
pub fn opt_diff_target_eq(a: &Option<DiffTarget>, b: &Option<DiffTarget>) -> (r: bool)
    ensures
        r == same_opt_target(opt_target_v(*a), opt_target_v(*b)),
{
    match (a, b) {
        (Some(x), Some(y)) => diff_target_eq(x, y),
        (None, None) => true,
        _ => false,
    }
}

/// Whether the diff view shows a single file for `target` (see `is_file_target`).
pub fn is_file_diff_target(target: Option<&DiffTarget>) -> (r: bool)
    ensures
        r == is_file_target(match target {
            Some(t) => Some(*t),
            None => None,
        }),
{
    match target {
        Some(DiffTarget::WorkingTree { .. }) => true,
        Some(DiffTarget::Commit { path: Some(_), .. }) => true,
        _ => false,
    }
}

/// The path of the file `target` shows (see `target_path`).
pub fn diff_target_path(target: &Option<DiffTarget>) -> (r: Option<String>)
    ensures
        match r {
            Some(p) => target_path(*target) == Some(p@),
            None => target_path(*target) is None,
        },
{
    match target {
        Some(DiffTarget::WorkingTree { path, .. }) => Some(path.clone()),
        Some(DiffTarget::Commit { path: Some(p), .. }) => Some(p.clone()),
        _ => None,
    }
}

/// A copy of an optional diff target.
pub fn clone_opt_target(t: &Option<DiffTarget>) -> (r: Option<DiffTarget>)
    ensures
        opt_target_v(r) == opt_target_v(*t),
{
    match t {
        Some(DiffTarget::WorkingTree { path, area }) => Some(
            DiffTarget::WorkingTree { path: path.clone(), area: *area },
        ),
        Some(DiffTarget::Commit { commit_id, path }) => {
            let p = match path {
                Some(p) => Some(p.clone()),
                None => None,
            };
            Some(DiffTarget::Commit { commit_id: commit_id.clone(), path: p })
        },
        None => None,
    }
}

} // verus!

verus! {

/// The image formats the diff view can show.
#[derive(Clone, Copy, Debug, PartialEq, Eq, Structural)]
pub enum ImageFormat {
    Png,
    Jpeg,
    Gif,
    Webp,
    Bmp,
    Svg,
    Tiff,
}

/// `c` with ASCII capitals made small.
pub open spec fn ascii_lower(c: char) -> char {
    if 'A' <= c && c <= 'Z' {
        ((c as u32) + 32) as char
    } else {
        c
    }
}

/// The image format a file extension names, whatever the case of its ASCII letters.
pub open spec fn format_for_extension(ext: Seq<char>) -> Option<ImageFormat> {
    let e = ext.map_values(|c: char| ascii_lower(c));
    if e == "png"@ {
        Some(ImageFormat::Png)
    } else if e == "jpg"@ || e == "jpeg"@ {
        Some(ImageFormat::Jpeg)
    } else if e == "gif"@ {
        Some(ImageFormat::Gif)
    } else if e == "webp"@ {
        Some(ImageFormat::Webp)
    } else if e == "bmp"@ {
        Some(ImageFormat::Bmp)
    } else if e == "svg"@ {
        Some(ImageFormat::Svg)
    } else if e == "tif"@ || e == "tiff"@ {
        Some(ImageFormat::Tiff)
    } else {
        None
    }
}

pub(crate) fn lower_chars(s: &str) -> (out: Vec<char>)
    ensures
        out@ == s@.map_values(|c: char| ascii_lower(c)),
{
    let cs = str_to_chars(s);
    let mut out: Vec<char> = Vec::new();
    let mut i: usize = 0;
    while i < cs.len()
        invariant
            i <= cs@.len(),
            cs@ == s@,
            out@ == cs@.take(i as int).map_values(|c: char| ascii_lower(c)),
        decreases cs@.len() - i,
    {
        let c = cs[i];
        let l = if 'A' <= c && c <= 'Z' {
            ((c as u8) + 32) as char
        } else {
            c
        };
        out.push(l);
        assert(cs@.take(i + 1).map_values(|c: char| ascii_lower(c)) =~= cs@.take(i as int).map_values(
            |c: char| ascii_lower(c),
        ).push(ascii_lower(c)));
        i = i + 1;
    }
    assert(cs@.take(cs@.len() as int) =~= cs@);
    out
}

fn is_text(cs: &Vec<char>, lit: &str) -> (r: bool)
    ensures
        r == (cs@ == lit@),
{
    let l = str_to_chars(lit);
    chars_eq(cs.as_slice(), l.as_slice())
}

/// The image format a file extension names (see `format_for_extension`).
pub fn image_format_for_extension(ext: &str) -> (r: Option<ImageFormat>)
    ensures
        r == format_for_extension(ext@),
{
    let e = lower_chars(ext);
    if is_text(&e, "png") {
        Some(ImageFormat::Png)
    } else if is_text(&e, "jpg") || is_text(&e, "jpeg") {
        Some(ImageFormat::Jpeg)
    } else if is_text(&e, "gif") {
        Some(ImageFormat::Gif)
    } else if is_text(&e, "webp") {
        Some(ImageFormat::Webp)
    } else if is_text(&e, "bmp") {
        Some(ImageFormat::Bmp)
    } else if is_text(&e, "svg") {
        Some(ImageFormat::Svg)
    } else if is_text(&e, "tif") || is_text(&e, "tiff") {
        Some(ImageFormat::Tiff)
    } else {
        None
    }
}

} // verus!
