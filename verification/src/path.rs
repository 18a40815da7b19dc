//! Path containment: whether a target path lies inside a workspace directory.

use vstd::prelude::*;
use crate::conversation::strings_view;

verus! {

/// The components of a path as `std::path::Path::components` yields them,
/// each as its text (`Component::as_os_str`): the root directory is `/`
/// (the platform's separator), the current directory `.`, the parent
/// directory `..`.
pub uninterp spec fn path_components(p: Seq<char>) -> Seq<Seq<char>>;

/// Whether `std::path::Path::is_absolute` holds of the path.
pub uninterp spec fn path_is_absolute(p: Seq<char>) -> bool;

/// The text that `str::to_lowercase` gives.
pub uninterp spec fn lowercase(s: Seq<char>) -> Seq<char>;

/// Splits `p` into its components through `Path::components`.
///
/// Trusted: the result is named by `path_components`, a function of the
/// text alone; nothing more about the split is claimed.
#[verifier::external_body]
fn components_of(p: &str) -> (r: Vec<String>)
    ensures
        strings_view(r@) == path_components(p@),
{
    std::path::Path::new(p).components().map(|c| c.as_os_str().to_string_lossy().into_owned()).collect()
}

/// Whether `p` is absolute, through `Path::is_absolute`.
///
/// Trusted: the result is named by `path_is_absolute`.
#[verifier::external_body]
pub(crate) fn is_absolute(p: &str) -> (r: bool)
    ensures
        r == path_is_absolute(p@),
{
    std::path::Path::new(p).is_absolute()
}

/// Lower-cases `s` through `str::to_lowercase`.
///
/// Trusted: the result is named by `lowercase`.
#[verifier::external_body]
fn to_lowercase(s: &str) -> (r: String)
    ensures
        r@ == lowercase(s@),
{
    s.to_lowercase()
}

/// Removing the last component, as `PathBuf::pop` does: a bare root or an
/// empty path stays as it is.
pub open spec fn pop_component(out: Seq<Seq<char>>) -> Seq<Seq<char>> {
    if out.len() == 0 || (out.len() == 1 && out[0] == "/"@) {
        out
    } else {
        out.drop_last()
    }
}

/// Lexical normalisation of components: `.` is dropped, `..` removes the
/// component before it, anything else is kept.
pub open spec fn clean_components(cs: Seq<Seq<char>>) -> Seq<Seq<char>>
    decreases cs.len(),
{
    if cs.len() == 0 {
        Seq::empty()
    } else {
        let out = clean_components(cs.drop_last());
        let c = cs.last();
        if c == "."@ {
            out
        } else if c == ".."@ {
            pop_component(out)
        } else {
            out.push(c)
        }
    }
}

/// Law: cleaning leaves no `.` and no `..` among the components.
pub proof fn lemma_clean_has_no_dots(cs: Seq<Seq<char>>)
    ensures
        forall|i: int| 0 <= i < clean_components(cs).len() ==>
            #[trigger] clean_components(cs)[i] != "."@ && clean_components(cs)[i] != ".."@,
    decreases cs.len(),
{
    if cs.len() > 0 {
        lemma_clean_has_no_dots(cs.drop_last());
        let out = clean_components(cs.drop_last());
        let r = clean_components(cs);
        if cs.last() == ".."@ {
            assert forall|i: int| 0 <= i < r.len() implies #[trigger] r[i] != "."@ && r[i] != ".."@ by {
                assert(r[i] == out[i]);
            }
        } else if cs.last() != "."@ {
            assert forall|i: int| 0 <= i < r.len() implies #[trigger] r[i] != "."@ && r[i] != ".."@ by {
                if i < out.len() {
                    assert(r[i] == out[i]);
                }
            }
        }
    }
}

/// Components with no `.` and no `..` are clean already.
proof fn lemma_clean_keeps_plain(cs: Seq<Seq<char>>)
    requires
        forall|i: int| 0 <= i < cs.len() ==> #[trigger] cs[i] != "."@ && cs[i] != ".."@,
    ensures
        clean_components(cs) == cs,
    decreases cs.len(),
{
    if cs.len() > 0 {
        let init = cs.drop_last();
        assert forall|i: int| 0 <= i < init.len() implies #[trigger] init[i] != "."@ && init[i] != ".."@ by {
            assert(init[i] == cs[i]);
        }
        lemma_clean_keeps_plain(init);
        assert(cs.last() == cs[cs.len() - 1]);
        assert(init.push(cs.last()) =~= cs);
    }
}

/// Law: cleaning twice is cleaning once.
pub proof fn lemma_clean_idempotent(cs: Seq<Seq<char>>)
    ensures
        clean_components(clean_components(cs)) == clean_components(cs),
{
    lemma_clean_has_no_dots(cs);
    lemma_clean_keeps_plain(clean_components(cs));
}

/// Law: `..` never climbs above the root: components that start at the
/// root still start at the root once cleaned.
pub proof fn lemma_clean_keeps_root(cs: Seq<Seq<char>>)
    requires
        cs.len() > 0,
        cs[0] == "/"@,
    ensures
        clean_components(cs).len() > 0,
        clean_components(cs)[0] == "/"@,
    decreases cs.len(),
{
    reveal_strlit("/");
    reveal_strlit(".");
    reveal_strlit("..");
    if cs.len() == 1 {
        assert(cs.drop_last() =~= Seq::<Seq<char>>::empty());
        assert(cs.last() == "/"@);
        assert("/"@[0] == '/' && "."@[0] == '.' && "/"@.len() == 1 && ".."@.len() == 2);
        assert("/"@ != "."@ && "/"@ != ".."@);
    } else {
        let init = cs.drop_last();
        assert(init[0] == cs[0]);
        lemma_clean_keeps_root(init);
    }
}

/// The normalised components of `p`, resolved against `current_dir` when `p`
/// is relative and a current directory is known.
pub open spec fn absolute_components(p: Seq<char>, current_dir: Option<Seq<char>>) -> Seq<Seq<char>> {
    if path_is_absolute(p) {
        clean_components(path_components(p))
    } else {
        match current_dir {
            Some(c) => clean_components(path_components(c) + path_components(p)),
            None => clean_components(path_components(p)),
        }
    }
}

/// Two components name the same entry.
pub open spec fn same_component(a: Seq<char>, b: Seq<char>, case_insensitive: bool) -> bool {
    if case_insensitive { lowercase(a) == lowercase(b) } else { a == b }
}

/// The components of `w` are a prefix of those of `t`.
pub open spec fn components_prefix(t: Seq<Seq<char>>, w: Seq<Seq<char>>, case_insensitive: bool) -> bool {
    &&& t.len() >= w.len()
    &&& forall|i: int| 0 <= i < w.len() ==> same_component(#[trigger] t[i], w[i], case_insensitive)
}

/// `target` lies at or below `workspace`.
pub open spec fn in_workspace(target: Seq<char>, workspace: Seq<char>, current_dir: Option<Seq<char>>,
    case_insensitive: bool) -> bool
{
    components_prefix(absolute_components(target, current_dir), absolute_components(workspace, current_dir),
        case_insensitive)
}

/// Law: two components are the same entry exactly when they are equal, or,
/// ignoring case, when their lower-case forms are equal; a component that
/// merely begins with the other is a different entry.
pub proof fn lemma_same_component_is_whole(a: Seq<char>, b: Seq<char>)
    ensures
        same_component(a, b, false) <==> a == b,
        same_component(a, b, true) <==> lowercase(a) == lowercase(b),
        b.len() < a.len() ==> !same_component(a, b, false),
{
}

/// Law: a target lies in a workspace exactly when the workspace's normalised
/// components are the first components of the target's, each equal to the
/// target's at the same place (their lower-case forms equal, when case is
/// ignored). So a sibling whose name only begins with the workspace's last
/// component is outside it.
pub proof fn lemma_containment_compares_whole_components(target: Seq<char>, workspace: Seq<char>,
    current_dir: Option<Seq<char>>, case_insensitive: bool)
    ensures
        in_workspace(target, workspace, current_dir, case_insensitive) <==> {
            let t = absolute_components(target, current_dir);
            let w = absolute_components(workspace, current_dir);
            &&& t.len() >= w.len()
            &&& forall|i: int| 0 <= i < w.len() ==> if case_insensitive {
                    lowercase(#[trigger] t[i]) == lowercase(w[i])
                } else {
                    t[i] == w[i]
                }
        },
        !case_insensitive ==> (in_workspace(target, workspace, current_dir, false) ==> {
            let t = absolute_components(target, current_dir);
            let w = absolute_components(workspace, current_dir);
            t.subrange(0, w.len() as int) == w
        }),
{
    let t = absolute_components(target, current_dir);
    let w = absolute_components(workspace, current_dir);
    if !case_insensitive && in_workspace(target, workspace, current_dir, false) {
        assert(t.subrange(0, w.len() as int) =~= w);
    }
}

fn text_eq(a: &String, b: &str) -> (r: bool)
    ensures
        r == (a@ == b@),
{
    let bb = b.to_owned();
    *a == bb
}

/// Normalises components lexically (see [`clean_components`]).
pub fn clean_path(cs: Vec<String>) -> (out: Vec<String>)
    ensures
        strings_view(out@) == clean_components(strings_view(cs@)),
{
    let mut out: Vec<String> = Vec::new();
    let mut rest = cs;
    let ghost all = strings_view(rest@);
    let n: usize = rest.len();
    let mut k: usize = 0;
    proof {
        assert(all.take(0) =~= Seq::<Seq<char>>::empty());
        assert(all.skip(0) =~= all);
    }
    while rest.len() > 0
        invariant
            n == all.len(),
            k <= n,
            strings_view(rest@) == all.skip(k as int),
            strings_view(out@) == clean_components(all.take(k as int)),
        decreases rest@.len(),
    {
        let ghost prev = rest@;
        let c = rest.remove(0);
        proof {
            assert(strings_view(prev).len() == prev.len());
            assert(k < n);
            assert(strings_view(prev)[0] == c@);
            assert(all.skip(k as int)[0] == all[k as int]);
            assert(rest@ =~= prev.subrange(1, prev.len() as int));
            assert forall|j: int| 0 <= j < rest@.len() implies strings_view(rest@)[j] == all.skip(k + 1)[j] by {
                assert(strings_view(rest@)[j] == rest@[j]@);
                assert(rest@[j] == prev[j + 1]);
                assert(strings_view(prev)[j + 1] == prev[j + 1]@);
                assert(all.skip(k as int)[j + 1] == all[k + 1 + j]);
            }
            assert(strings_view(rest@) =~= all.skip(k + 1));
            assert(all.take(k + 1).drop_last() =~= all.take(k as int));
            assert(all.take(k + 1).last() == c@);
        }
        let ghost before = strings_view(out@);
        if text_eq(&c, ".") {
        } else if text_eq(&c, "..") {
            if out.len() == 0 {
            } else if out.len() == 1 && text_eq(&out[0], "/") {
                assert(before[0] == out@[0]@);
            } else {
                out.pop();
                proof {
                    assert(before.len() > 0);
                    assert(!(before.len() == 1 && before[0] == "/"@));
                    assert(strings_view(out@) =~= before.drop_last());
                }
            }
        } else {
            out.push(c);
            assert(strings_view(out@) =~= before.push(c@));
        }
        k = k + 1;
    }
    proof { assert(all.take(n as int) =~= all); }
    out
}

/// Appends the components of `b` to those of `a`.
fn concat_strings(a: Vec<String>, b: Vec<String>) -> (r: Vec<String>)
    ensures
        strings_view(r@) == strings_view(a@) + strings_view(b@),
{
    let mut r = a;
    let mut b = b;
    let ghost ra = r@;
    let ghost bb = b@;
    r.append(&mut b);
    assert(strings_view(r@) =~= strings_view(ra) + strings_view(bb));
    r
}

/// The normalised absolute components of `p` (see [`absolute_components`]).
fn absolute_path_components(p: &str, current_dir: &Option<String>) -> (r: Vec<String>)
    ensures
        strings_view(r@) == absolute_components(p@, match current_dir {
            Some(c) => Some(c@),
            None => None,
        }),
{
    if is_absolute(p) {
        clean_path(components_of(p))
    } else {
        match current_dir {
            Some(c) => clean_path(concat_strings(components_of(c.as_str()), components_of(p))),
            None => clean_path(components_of(p)),
        }
    }
}

/// Whether `target` lies at or below `workspace`. Relative paths are resolved
/// against `current_dir` when it is known; both paths are normalised
/// lexically, then compared component by component, ignoring case when
/// `case_insensitive` holds (as on Windows and macOS).
pub fn is_path_in_workspace(target: &str, workspace: &str, current_dir: &Option<String>,
    case_insensitive: bool) -> (r: bool)
    ensures
        r == in_workspace(target@, workspace@, match current_dir {
            Some(c) => Some(c@),
            None => None,
        }, case_insensitive),
{
    let t = absolute_path_components(target, current_dir);
    let w = absolute_path_components(workspace, current_dir);
    let ghost tv = strings_view(t@);
    let ghost wv = strings_view(w@);
    let ghost cd = match current_dir {
        Some(c) => Some(c@),
        None => None,
    };
    assert(tv == absolute_components(target@, cd));
    assert(wv == absolute_components(workspace@, cd));
    if t.len() < w.len() {
        return false;
    }
    let mut i: usize = 0;
    while i < w.len()
        invariant
            i <= w@.len(),
            w@.len() <= t@.len(),
            tv == strings_view(t@),
            wv == strings_view(w@),
            tv == absolute_components(target@, cd),
            wv == absolute_components(workspace@, cd),
            cd == match current_dir {
                Some(c) => Some(c@),
                None => None::<Seq<char>>,
            },
            forall|k: int| 0 <= k < i ==> same_component(#[trigger] tv[k], wv[k], case_insensitive),
        decreases w@.len() - i,
    {
        let same = if case_insensitive {
            let a = to_lowercase(t[i].as_str());
            let b = to_lowercase(w[i].as_str());
            a == b
        } else {
            t[i] == w[i]
        };
        assert(tv[i as int] == t@[i as int]@ && wv[i as int] == w@[i as int]@);
        if !same {
            assert(!same_component(tv[i as int], wv[i as int], case_insensitive));
            assert(!components_prefix(tv, wv, case_insensitive));
            return false;
        }
        i = i + 1;
    }
    true
}

} // verus!
