use vstd::prelude::*;

use crate::mounts::{mounts_of, position_of, prefix_of, register, MountView, lemma_position_of_bounds};
use crate::pipeline::{covers, dispatch_of, is_read_method, mount_at, Dispatch};
use crate::resolve::{
    fallback_body, first_found, not_found_body_of, page_response_of, STATUS_NOT_FOUND, STATUS_OK,
};
use crate::routes::{page_at, route_of, LogicalPage};

verus! {

/// Each route leads to its own page: the five routes are distinct.
pub proof fn lemma_route_leads_to_page(p: LogicalPage)
    ensures
        page_at(route_of(p)) == Some(p),
{
    reveal_strlit("/");
    reveal_strlit("/index");
    reveal_strlit("/services");
    reveal_strlit("/contact-us");
    reveal_strlit("/about-us");
    assert("/index"@[1] != "/services"@[1]);
    assert("/index"@.len() != "/contact-us"@.len());
    assert("/services"@[1] != "/about-us"@[1]);
    assert("/services"@.len() != "/contact-us"@.len());
    assert("/index"@.len() != "/about-us"@.len());
    assert("/contact-us"@.len() != "/about-us"@.len());
}

/// Resolution returns the text of the first root whose file could be read:
/// earlier roots that lack the file, or cannot read it, are passed over, and
/// later roots are never consulted.
pub proof fn law_roots_probed_in_order(probes: Seq<Option<Seq<char>>>, i: int)
    requires
        0 <= i < probes.len(),
        probes[i] is Some,
        forall|j: int| 0 <= j < i ==> probes[j] is None,
    ensures
        first_found(probes) == probes[i],
    decreases i,
{
    if i > 0 {
        law_roots_probed_in_order(probes.drop_first(), i - 1);
    }
}

/// Resolution fails exactly when no root's file could be read; when it
/// succeeds, some first root holds the text found.
pub proof fn lemma_first_found_cases(probes: Seq<Option<Seq<char>>>)
    ensures
        first_found(probes) is None <==> forall|j: int| 0 <= j < probes.len() ==> probes[j] is None,
        first_found(probes) is Some ==> exists|i: int|
            0 <= i < probes.len() && probes[i] == first_found(probes) && forall|j: int|
                0 <= j < i ==> probes[j] is None,
    decreases probes.len(),
{
    if probes.len() > 0 {
        let rest = probes.drop_first();
        lemma_first_found_cases(rest);
        if probes[0] is None {
            if first_found(probes) is Some {
                let i = choose|i: int|
                    0 <= i < rest.len() && rest[i] == first_found(rest) && forall|j: int|
                        0 <= j < i ==> rest[j] is None;
                assert(probes[i + 1] == rest[i]);
                assert forall|j: int| 0 <= j < i + 1 implies probes[j] is None by {
                    if j > 0 {
                        assert(probes[j] == rest[j - 1]);
                    }
                }
            } else {
                assert forall|j: int| 0 <= j < probes.len() implies probes[j] is None by {
                    if j > 0 {
                        assert(probes[j] == rest[j - 1]);
                    }
                }
            }
        }
    }
}

/// A logical page that at least one root holds is answered with status 200
/// and the text of the first root that holds it; no static mount can take
/// its route.
pub proof fn law_found_page_is_served(
    method: Seq<char>,
    p: LogicalPage,
    mounts: Seq<MountView>,
    page: Seq<Option<Seq<char>>>,
    not_found: Seq<Option<Seq<char>>>,
)
    requires
        is_read_method(method),
        exists|i: int| 0 <= i < page.len() && page[i] is Some,
    ensures
        dispatch_of(method, route_of(p), mounts) == Dispatch::Page(p),
        exists|i: int|
            0 <= i < page.len() && page[i] is Some && (forall|j: int| 0 <= j < i ==> page[j] is None)
                && page_response_of(page, not_found) == (STATUS_OK, page[i]->Some_0),
{
    lemma_route_leads_to_page(p);
    lemma_first_found_cases(page);
}

/// A logical page that no root holds is answered with status 404 and the
/// first readable custom not-found page, or the fallback text where no root
/// holds one.
pub proof fn law_missing_page_gets_not_found(
    method: Seq<char>,
    p: LogicalPage,
    mounts: Seq<MountView>,
    page: Seq<Option<Seq<char>>>,
    not_found: Seq<Option<Seq<char>>>,
)
    requires
        is_read_method(method),
        forall|i: int| 0 <= i < page.len() ==> page[i] is None,
    ensures
        dispatch_of(method, route_of(p), mounts) == Dispatch::Page(p),
        page_response_of(page, not_found).0 == STATUS_NOT_FOUND,
        (forall|j: int| 0 <= j < not_found.len() ==> not_found[j] is None) ==> page_response_of(
            page,
            not_found,
        ).1 == fallback_body(),
        (exists|j: int| 0 <= j < not_found.len() && not_found[j] is Some) ==> exists|j: int|
            0 <= j < not_found.len() && (forall|k: int| 0 <= k < j ==> not_found[k] is None)
                && not_found[j] == Some(page_response_of(page, not_found).1),
{
    lemma_route_leads_to_page(p);
    lemma_first_found_cases(page);
    lemma_first_found_cases(not_found);
}

/// A path that is no logical route and that no mount covers is answered by
/// the not-found page, whatever the method.
pub proof fn law_unrouted_path_is_not_found(
    method: Seq<char>,
    path: Seq<char>,
    mounts: Seq<MountView>,
)
    requires
        forall|p: LogicalPage| path != route_of(p),
        forall|i: int| 0 <= i < mounts.len() ==> !covers(#[trigger] mounts[i].0, path),
    ensures
        dispatch_of(method, path, mounts) == Dispatch::NotFound,
{
    assert(path != route_of(LogicalPage::Index));
    assert(path != route_of(LogicalPage::Home));
    assert(path != route_of(LogicalPage::Services));
    assert(path != route_of(LogicalPage::Contact));
    assert(path != route_of(LogicalPage::AboutUs));
    crate::pipeline::lemma_mount_at_bounds(path, mounts);
}

/// Identical requests against the same content give identical answers:
/// dispatch and responses depend on the texts alone.
pub proof fn law_identical_requests_agree(
    method1: Seq<char>,
    path1: Seq<char>,
    page1: Seq<Option<Seq<char>>>,
    not_found1: Seq<Option<Seq<char>>>,
    method2: Seq<char>,
    path2: Seq<char>,
    page2: Seq<Option<Seq<char>>>,
    not_found2: Seq<Option<Seq<char>>>,
    mounts: Seq<MountView>,
)
    requires
        method1 == method2,
        path1 == path2,
        page1 == page2,
        not_found1 == not_found2,
    ensures
        dispatch_of(method1, path1, mounts) == dispatch_of(method2, path2, mounts),
        page_response_of(page1, not_found1) == page_response_of(page2, not_found2),
        not_found_body_of(not_found1) == not_found_body_of(not_found2),
{
}

proof fn lemma_position_none(ms: Seq<MountView>, prefix: Seq<char>)
    ensures
        position_of(ms, prefix) < 0 ==> forall|j: int| 0 <= j < ms.len() ==> ms[j].0 != prefix,
    decreases ms.len(),
{
    if ms.len() > 0 {
        lemma_position_none(ms.drop_last(), prefix);
        if position_of(ms, prefix) < 0 {
            assert forall|j: int| 0 <= j < ms.len() implies ms[j].0 != prefix by {
                if j < ms.len() - 1 {
                    assert(ms[j] == ms.drop_last()[j]);
                }
            }
        }
    }
}

/// No two mounts share a prefix.
pub proof fn law_mount_prefixes_distinct(roots: Seq<Seq<char>>)
    ensures
        forall|i: int, j: int|
            0 <= i < j < mounts_of(roots).len() ==> mounts_of(roots)[i].0 != mounts_of(roots)[j].0,
    decreases roots.len(),
{
    if roots.len() > 0 {
        let before = mounts_of(roots.drop_last());
        let prefix = prefix_of(roots.last());
        law_mount_prefixes_distinct(roots.drop_last());
        lemma_position_none(before, prefix);
        lemma_position_of_bounds(before, prefix);
        let after = register(before, prefix, roots.last());
        assert(after == mounts_of(roots));
        let k = position_of(before, prefix);
        assert forall|i: int, j: int| 0 <= i < j < after.len() implies after[i].0 != after[j].0 by {
            if k < 0 {
                if j == before.len() {
                    assert(after[i] == before[i]);
                }
            }
        }
    }
}

/// Of roots that share a mount prefix, the last one in the configured order
/// owns the prefix: the table holds exactly one mount there, and it serves
/// that root's directory, so an earlier root is unreachable through it.
pub proof fn law_last_root_owns_prefix(roots: Seq<Seq<char>>, k: int)
    requires
        0 <= k < roots.len(),
        forall|l: int| k < l < roots.len() ==> prefix_of(#[trigger] roots[l]) != prefix_of(roots[k]),
    ensures
        exists|i: int|
            0 <= i < mounts_of(roots).len() && mounts_of(roots)[i] == (prefix_of(roots[k]), roots[k])
                && forall|j: int|
                0 <= j < mounts_of(roots).len() && j != i ==> mounts_of(roots)[j].0 != prefix_of(
                    roots[k],
                ),
    decreases roots.len(),
{
    let ms = mounts_of(roots);
    let pk = prefix_of(roots[k]);
    let before = mounts_of(roots.drop_last());
    let prefix = prefix_of(roots.last());
    law_mount_prefixes_distinct(roots);
    lemma_position_of_bounds(before, prefix);
    let pos = position_of(before, prefix);
    if k == roots.len() - 1 {
        let i = if pos < 0 { before.len() as int } else { pos };
        assert(ms[i] == (pk, roots[k]));
        assert forall|j: int| 0 <= j < ms.len() && j != i implies ms[j].0 != pk by {
            if j < i {
                assert(ms[j].0 != ms[i].0);
            } else {
                assert(ms[i].0 != ms[j].0);
            }
        }
    } else {
        let rest = roots.drop_last();
        assert(rest[k] == roots[k]);
        assert forall|l: int| k < l < rest.len() implies prefix_of(#[trigger] rest[l]) != prefix_of(
            rest[k],
        ) by {
            assert(rest[l] == roots[l]);
        }
        law_last_root_owns_prefix(rest, k);
        let i = choose|i: int|
            0 <= i < before.len() && before[i] == (prefix_of(rest[k]), rest[k]) && forall|j: int|
                0 <= j < before.len() && j != i ==> before[j].0 != prefix_of(rest[k]);
        assert(roots.last() == roots[roots.len() - 1]);
        assert(prefix != pk);
        assert(ms[i] == before[i]);
        assert forall|j: int| 0 <= j < ms.len() && j != i implies ms[j].0 != pk by {
            if j < ms.len() - 1 || pos >= 0 {
                if j != pos {
                    assert(ms[j] == before[j]);
                }
            }
        }
    }
}

} // verus!
