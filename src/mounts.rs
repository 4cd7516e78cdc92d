use vstd::prelude::*;

use crate::roots::ContentRootSet;

verus! {

/// What `Path::file_name` gives for a path, as text: its final component
/// where that is a normal component, else nothing.
pub uninterp spec fn file_name_of(path: Seq<char>) -> Option<Seq<char>>;

/// Relies on std::path::Path::file_name for the final component of a
/// directory path; the component of a `&str` path is itself valid text.
#[verifier::external_body]
fn final_component(path: &str) -> (r: Option<String>)
    ensures
        match r {
            Some(n) => file_name_of(path@) == Some(n@),
            None => file_name_of(path@) is None,
        },
{
    match std::path::Path::new(path).file_name() {
        Some(n) => n.to_str().map(|t| t.to_string()),
        None => None,
    }
}

/// The mount name used for a root whose final component cannot be determined.
pub open spec fn default_mount_name() -> Seq<char> {
    "static"@
}

/// The mount name of a root: its final component, else the default name.
pub open spec fn mount_name_of(root: Seq<char>) -> Seq<char> {
    match file_name_of(root) {
        Some(n) => n,
        None => default_mount_name(),
    }
}

/// The URL prefix at which a root is mounted.
pub open spec fn prefix_of(root: Seq<char>) -> Seq<char> {
    "/"@ + mount_name_of(root)
}

/// A mount as (URL prefix, directory).
pub type MountView = (Seq<char>, Seq<char>);

/// The position of the mount registered at `prefix`, or -1.
pub open spec fn position_of(ms: Seq<MountView>, prefix: Seq<char>) -> int
    decreases ms.len(),
{
    if ms.len() == 0 {
        -1
    } else if ms.last().0 == prefix {
        ms.len() - 1
    } else {
        position_of(ms.drop_last(), prefix)
    }
}

pub proof fn lemma_position_of_bounds(ms: Seq<MountView>, prefix: Seq<char>)
    ensures
        -1 <= position_of(ms, prefix) < ms.len(),
        position_of(ms, prefix) >= 0 ==> ms[position_of(ms, prefix)].0 == prefix,
    decreases ms.len(),
{
    if ms.len() > 0 {
        lemma_position_of_bounds(ms.drop_last(), prefix);
    }
}

/// Registers `dir` at `prefix`: a prefix already taken is handed to the new
/// directory in place (last registration wins), a new prefix is appended.
pub open spec fn register(ms: Seq<MountView>, prefix: Seq<char>, dir: Seq<char>) -> Seq<MountView> {
    let k = position_of(ms, prefix);
    if k < 0 {
        ms.push((prefix, dir))
    } else {
        ms.update(k, (prefix, dir))
    }
}

/// The mount table of an ordered list of roots, registered in order.
pub open spec fn mounts_of(roots: Seq<Seq<char>>) -> Seq<MountView>
    decreases roots.len(),
{
    if roots.len() == 0 {
        Seq::empty()
    } else {
        register(mounts_of(roots.drop_last()), prefix_of(roots.last()), roots.last())
    }
}

/// A static mount: every file under `dir` is served at `prefix/<sub-path>`.
pub struct StaticMount {
    pub prefix: String,
    pub dir: String,
}

impl View for StaticMount {
    type V = MountView;

    open spec fn view(&self) -> MountView {
        (self.prefix@, self.dir@)
    }
}

pub open spec fn mount_views(ms: Seq<StaticMount>) -> Seq<MountView> {
    ms.map_values(|m: StaticMount| m@)
}

/// The mount name of a root; a root without a final component gets the
/// default name.
pub fn mount_name(root: &str) -> (r: String)
    ensures
        r@ == mount_name_of(root@),
{
    match final_component(root) {
        Some(n) => n,
        None => String::from_str("static"),
    }
}

/// The URL prefix of a root's mount.
pub fn mount_prefix(root: &str) -> (r: String)
    ensures
        r@ == prefix_of(root@),
{
    let name = mount_name(root);
    let mut prefix = String::from_str("/");
    prefix.append(name.as_str());
    prefix
}

/// The position at which `prefix` is registered, if it is.
fn find_prefix(ms: &Vec<StaticMount>, prefix: &String) -> (r: Option<usize>)
    ensures
        match r {
            Some(k) => k as int == position_of(mount_views(ms@), prefix@),
            None => position_of(mount_views(ms@), prefix@) < 0,
        },
{
    let ghost all = mount_views(ms@);
    let mut j: usize = ms.len();
    assert(all.subrange(0, j as int) =~= all);
    while j > 0
        invariant
            all == mount_views(ms@),
            j <= ms@.len(),
            position_of(all, prefix@) == position_of(all.subrange(0, j as int), prefix@),
        decreases j,
    {
        let ghost pre = all.subrange(0, j as int);
        assert(pre.drop_last() =~= all.subrange(0, j - 1));
        if crate::text::str_eq(ms[j - 1].prefix.as_str(), prefix.as_str()) {
            return Some(j - 1);
        }
        j = j - 1;
    }
    None
}

/// Derives the mount table from the roots, one mount per distinct prefix; of
/// roots that share a prefix, the later one's directory is mounted there.
pub fn compose_mounts(roots: &ContentRootSet) -> (r: Vec<StaticMount>)
    ensures
        mount_views(r@) == mounts_of(roots@),
{
    let mut ms: Vec<StaticMount> = Vec::new();
    let n = roots.len();
    let mut i: usize = 0;
    assert(roots@.subrange(0, 0) =~= Seq::<Seq<char>>::empty());
    assert(mount_views(ms@) =~= Seq::<MountView>::empty());
    while i < n
        invariant
            n == roots@.len(),
            i <= n,
            mount_views(ms@) == mounts_of(roots@.subrange(0, i as int)),
        decreases n - i,
    {
        let root = roots.get(i);
        let prefix = mount_prefix(root);
        let dir = String::from_str(root);
        let ghost before = mount_views(ms@);
        proof {
            let pre = roots@.subrange(0, i + 1);
            assert(pre.drop_last() =~= roots@.subrange(0, i as int));
            assert(pre.last() == root@);
        }
        proof {
            lemma_position_of_bounds(before, prefix@);
        }
        match find_prefix(&ms, &prefix) {
            Some(k) => {
                let m = StaticMount { prefix, dir };
                ms.set(k, m);
                assert(mount_views(ms@) =~= before.update(k as int, m@));
            },
            None => {
                let m = StaticMount { prefix, dir };
                ms.push(m);
                assert(mount_views(ms@) =~= before.push(m@));
            },
        }
        i = i + 1;
    }
    assert(roots@.subrange(0, n as int) =~= roots@);
    ms
}

} // verus!
