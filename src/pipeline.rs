use vstd::prelude::*;

use crate::mounts::{mount_views, MountView, StaticMount};
use crate::routes::{page_at, LogicalPage};
use crate::text::str_eq;

verus! {

/// Where a request goes, decided in this order: an exact logical route, then
/// the first static mount whose prefix covers the path, then not-found.
#[derive(Clone, Copy, Debug, PartialEq, Eq, Structural)]
pub enum Dispatch {
    /// A logical page, requested with a method that reads.
    Page(LogicalPage),
    /// A logical route requested with a method other than GET or HEAD.
    MethodNotAllowed,
    /// The static mount at this position of the mount table.
    Mount(usize),
    /// No route and no mount: the custom not-found page.
    NotFound,
}

/// Logical routes answer GET and HEAD only.
pub open spec fn is_read_method(method: Seq<char>) -> bool {
    method == "GET"@ || method == "HEAD"@
}

/// A mount at `prefix` covers the prefix itself and everything below it.
pub open spec fn covers(prefix: Seq<char>, path: Seq<char>) -> bool {
    path == prefix || (prefix.len() < path.len() && path.subrange(0, prefix.len() as int) == prefix
        && path[prefix.len() as int] == '/')
}

/// The position of the first mount that covers `path`.
pub open spec fn mount_at(path: Seq<char>, ms: Seq<MountView>) -> Option<int>
    decreases ms.len(),
{
    if ms.len() == 0 {
        None
    } else {
        match mount_at(path, ms.drop_last()) {
            Some(k) => Some(k),
            None => if covers(ms.last().0, path) {
                Some(ms.len() - 1)
            } else {
                None
            },
        }
    }
}

pub open spec fn dispatch_of(method: Seq<char>, path: Seq<char>, ms: Seq<MountView>) -> Dispatch {
    match page_at(path) {
        Some(p) => if is_read_method(method) {
            Dispatch::Page(p)
        } else {
            Dispatch::MethodNotAllowed
        },
        None => match mount_at(path, ms) {
            Some(k) => Dispatch::Mount(k as usize),
            None => Dispatch::NotFound,
        },
    }
}

/// The path handed to a mount: what follows its prefix, `/` where nothing does.
pub open spec fn sub_path_of(prefix: Seq<char>, path: Seq<char>) -> Seq<char> {
    if path.len() <= prefix.len() {
        "/"@
    } else {
        path.subrange(prefix.len() as int, path.len() as int)
    }
}

pub proof fn lemma_mount_at_extends(path: Seq<char>, ms: Seq<MountView>, i: int)
    requires
        0 <= i <= ms.len(),
        mount_at(path, ms.subrange(0, i)) is Some,
    ensures
        mount_at(path, ms) == mount_at(path, ms.subrange(0, i)),
    decreases ms.len() - i,
{
    if i < ms.len() {
        let next = ms.subrange(0, i + 1);
        assert(next.drop_last() =~= ms.subrange(0, i));
        lemma_mount_at_extends(path, ms, i + 1);
    } else {
        assert(ms.subrange(0, i) =~= ms);
    }
}

pub proof fn lemma_mount_at_bounds(path: Seq<char>, ms: Seq<MountView>)
    ensures
        mount_at(path, ms) matches Some(k) ==> 0 <= k < ms.len() && covers(ms[k].0, path),
    decreases ms.len(),
{
    if ms.len() > 0 {
        lemma_mount_at_bounds(path, ms.drop_last());
    }
}

/// Whether the mount at `prefix` covers `path`.
pub fn mount_covers(prefix: &str, path: &str) -> (r: bool)
    ensures
        r == covers(prefix@, path@),
{
    let n = prefix.unicode_len();
    let m = path.unicode_len();
    if n > m {
        return false;
    }
    let head = path.substring_char(0, n);
    if n == m {
        assert(path@.subrange(0, n as int) =~= path@);
    }
    if !str_eq(head, prefix) {
        return false;
    }
    if n == m {
        assert(path@ =~= head@);
        return true;
    }
    path.get_char(n) == '/'
}

/// The path that a mount at `prefix` is handed for `path`.
pub fn mount_sub_path(prefix: &str, path: &str) -> (r: String)
    ensures
        r@ == sub_path_of(prefix@, path@),
{
    let n = prefix.unicode_len();
    let m = path.unicode_len();
    if m <= n {
        String::from_str("/")
    } else {
        String::from_str(path.substring_char(n, m))
    }
}

/// Decides where a request goes.
pub fn dispatch(method: &str, path: &str, mounts: &Vec<StaticMount>) -> (r: Dispatch)
    ensures
        r == dispatch_of(method@, path@, mount_views(mounts@)),
{
    match LogicalPage::for_route(path) {
        Some(p) => {
            if str_eq(method, "GET") || str_eq(method, "HEAD") {
                Dispatch::Page(p)
            } else {
                Dispatch::MethodNotAllowed
            }
        },
        None => {
            let ghost ms = mount_views(mounts@);
            let mut i: usize = 0;
            assert(ms.subrange(0, 0) =~= Seq::<MountView>::empty());
            while i < mounts.len()
                invariant
                    ms == mount_views(mounts@),
                    page_at(path@) is None,
                    i <= mounts@.len(),
                    mount_at(path@, ms.subrange(0, i as int)) is None,
                decreases mounts.len() - i,
            {
                let ghost next = ms.subrange(0, i + 1);
                assert(next.drop_last() =~= ms.subrange(0, i as int));
                assert(next.last() == mounts@[i as int]@);
                if mount_covers(mounts[i].prefix.as_str(), path) {
                    proof {
                        lemma_mount_at_extends(path@, ms, i + 1);
                    }
                    return Dispatch::Mount(i);
                }
                i = i + 1;
            }
            assert(ms.subrange(0, i as int) =~= ms);
            Dispatch::NotFound
        },
    }
}

} // verus!
