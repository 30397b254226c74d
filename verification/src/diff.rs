//! The diff engine: the pure computation of the minimal set of field
//! updates that brings a destination secret's data into agreement with a
//! source secret's data, per a declared mapping list.
use vstd::prelude::*;

use crate::controller::ReconcilerError;
use crate::crd::PatchCopyItem;
use crate::secret_data::SecretData;

verus! {

/// Whether every mapping's source key is present in the source data.
pub open spec fn all_sources_present(
    items: Seq<PatchCopyItem>,
    src: Map<Seq<char>, Seq<u8>>,
) -> bool {
    forall|i: int| 0 <= i < items.len() ==> src.contains_key(#[trigger] items[i].source@)
}

/// The first mapping whose source key the source data lacks, scanning the
/// mappings left to right.
pub open spec fn first_missing_source(
    items: Seq<PatchCopyItem>,
    src: Map<Seq<char>, Seq<u8>>,
) -> Option<Seq<char>>
    decreases items.len(),
{
    if items.len() == 0 {
        None
    } else if !src.contains_key(items[0].source@) {
        Some(items[0].source@)
    } else {
        first_missing_source(items.drop_first(), src)
    }
}

/// The update set: for each mapping in order, the source value keyed by
/// the destination key, included only where it differs from the
/// destination's current value (an absent destination key counts as
/// different); a later mapping overrides an earlier one on the same
/// destination key. Meaningful only when every source key is present.
pub open spec fn updates_of(
    items: Seq<PatchCopyItem>,
    src: Map<Seq<char>, Seq<u8>>,
    dst: Map<Seq<char>, Seq<u8>>,
) -> Map<Seq<char>, Seq<u8>>
    decreases items.len(),
{
    if items.len() == 0 {
        Map::empty()
    } else {
        let rest = updates_of(items.drop_last(), src, dst);
        let it = items.last();
        if dst.contains_key(it.destination@) && dst[it.destination@] == src[it.source@] {
            rest
        } else {
            rest.insert(it.destination@, src[it.source@])
        }
    }
}

/// Law: there is no first missing source key exactly when every mapping's
/// source key is present.
pub proof fn lemma_first_missing_none(items: Seq<PatchCopyItem>, src: Map<Seq<char>, Seq<u8>>)
    ensures
        first_missing_source(items, src) is None <==> all_sources_present(items, src),
    decreases items.len(),
{
    if items.len() > 0 && src.contains_key(items[0].source@) {
        lemma_first_missing_none(items.drop_first(), src);
        assert forall|i: int|
            0 <= i < items.len() && all_sources_present(
                items.drop_first(),
                src,
            ) implies src.contains_key(#[trigger] items[i].source@) by {
            if i > 0 {
                assert(items.drop_first()[i - 1] == items[i]);
            }
        }
        if all_sources_present(items, src) {
            assert forall|i: int|
                0 <= i < items.drop_first().len() implies src.contains_key(
                #[trigger] items.drop_first()[i].source@,
            ) by {
                assert(items.drop_first()[i] == items[i + 1]);
            }
        }
    }
}

/// A prefix of mappings whose source keys are all present does not carry
/// the first missing key: the scan continues past it.
proof fn lemma_first_missing_skip(
    items: Seq<PatchCopyItem>,
    src: Map<Seq<char>, Seq<u8>>,
    i: int,
)
    requires
        0 <= i <= items.len(),
        forall|j: int| 0 <= j < i ==> src.contains_key(#[trigger] items[j].source@),
    ensures
        first_missing_source(items, src) == first_missing_source(items.skip(i), src),
    decreases i,
{
    if i > 0 {
        assert(src.contains_key(items[0].source@));
        assert forall|j: int| 0 <= j < i - 1 implies src.contains_key(
            #[trigger] items.drop_first()[j].source@,
        ) by {
            assert(items.drop_first()[j] == items[j + 1]);
        }
        lemma_first_missing_skip(items.drop_first(), src, i - 1);
        assert(items.drop_first().skip(i - 1) =~= items.skip(i));
    } else {
        assert(items.skip(0) =~= items);
    }
}

/// Law: when the destination already carries the source's value for every
/// mapped field, the update set is empty — nothing is patched.
pub proof fn lemma_no_updates_when_agreeing(
    items: Seq<PatchCopyItem>,
    src: Map<Seq<char>, Seq<u8>>,
    dst: Map<Seq<char>, Seq<u8>>,
)
    requires
        forall|i: int|
            0 <= i < items.len() ==> (dst.contains_key(#[trigger] items[i].destination@)
                && dst[items[i].destination@] == src[items[i].source@]),
    ensures
        updates_of(items, src, dst) == Map::<Seq<char>, Seq<u8>>::empty(),
    decreases items.len(),
{
    if items.len() > 0 {
        assert forall|i: int| 0 <= i < items.drop_last().len() implies (dst.contains_key(
            #[trigger] items.drop_last()[i].destination@,
        ) && dst[items.drop_last()[i].destination@] == src[items.drop_last()[i].source@]) by {
            assert(items.drop_last()[i] == items[i]);
        }
        lemma_no_updates_when_agreeing(items.drop_last(), src, dst);
    }
}

/// Every key of the update set is some mapping's destination key.
proof fn lemma_updates_dom(
    items: Seq<PatchCopyItem>,
    src: Map<Seq<char>, Seq<u8>>,
    dst: Map<Seq<char>, Seq<u8>>,
)
    ensures
        forall|k: Seq<char>|
            #[trigger] updates_of(items, src, dst).contains_key(k) ==> exists|j: int|
                0 <= j < items.len() && #[trigger] items[j].destination@ == k,
    decreases items.len(),
{
    if items.len() > 0 {
        lemma_updates_dom(items.drop_last(), src, dst);
        assert forall|k: Seq<char>| #[trigger] updates_of(items, src, dst).contains_key(
            k,
        ) implies exists|j: int| 0 <= j < items.len() && #[trigger] items[j].destination@ == k by {
            if k == items.last().destination@ {
                assert(items[items.len() - 1].destination@ == k);
            } else {
                assert(updates_of(items.drop_last(), src, dst).contains_key(k));
                let j = choose|j: int|
                    0 <= j < items.drop_last().len() && #[trigger] items.drop_last()[j].destination@
                        == k;
                assert(items[j].destination@ == k);
            }
        }
    }
}

/// For each mapped destination key, either the update set carries it or
/// the destination data already does; in both cases the value held there
/// is the source value of some mapping with that destination key.
proof fn lemma_dest_covered(
    items: Seq<PatchCopyItem>,
    src: Map<Seq<char>, Seq<u8>>,
    dst: Map<Seq<char>, Seq<u8>>,
    d: Seq<char>,
)
    requires
        exists|j: int| 0 <= j < items.len() && #[trigger] items[j].destination@ == d,
    ensures
        ({
            let u = updates_of(items, src, dst);
            if u.contains_key(d) {
                exists|j: int|
                    0 <= j < items.len() && #[trigger] items[j].destination@ == d && u[d]
                        == src[items[j].source@]
            } else {
                dst.contains_key(d) && exists|j: int|
                    0 <= j < items.len() && #[trigger] items[j].destination@ == d && dst[d]
                        == src[items[j].source@]
            }
        }),
    decreases items.len(),
{
    let u = updates_of(items, src, dst);
    let rest = items.drop_last();
    let ur = updates_of(rest, src, dst);
    let last = items.last();
    if last.destination@ == d {
        if dst.contains_key(d) && dst[d] == src[last.source@] {
            if u.contains_key(d) {
                lemma_updates_dom(rest, src, dst);
                let j = choose|j: int| 0 <= j < rest.len() && #[trigger] rest[j].destination@ == d;
                lemma_dest_covered(rest, src, dst, d);
                let w = choose|w: int|
                    0 <= w < rest.len() && #[trigger] rest[w].destination@ == d && ur[d]
                        == src[rest[w].source@];
                assert(items[w].destination@ == d && u[d] == src[items[w].source@]);
            } else {
                assert(items[items.len() - 1].destination@ == d && dst[d] == src[items[items.len()
                    - 1].source@]);
            }
        } else {
            assert(items[items.len() - 1].destination@ == d && u[d] == src[items[items.len()
                - 1].source@]);
        }
    } else {
        let j = choose|j: int| 0 <= j < items.len() && #[trigger] items[j].destination@ == d;
        assert(rest[j].destination@ == d);
        lemma_dest_covered(rest, src, dst, d);
        if u.contains_key(d) {
            assert(ur.contains_key(d) && ur[d] == u[d]);
            let w = choose|w: int|
                0 <= w < rest.len() && #[trigger] rest[w].destination@ == d && ur[d]
                    == src[rest[w].source@];
            assert(items[w].destination@ == d && u[d] == src[items[w].source@]);
        } else {
            assert(!ur.contains_key(d));
            let w = choose|w: int|
                0 <= w < rest.len() && #[trigger] rest[w].destination@ == d && dst[d]
                    == src[rest[w].source@];
            assert(items[w].destination@ == d && dst[d] == src[items[w].source@]);
        }
    }
}

/// Law: the diff engine reaches a fixed point in one application — merging
/// the computed update set into the destination data and recomputing
/// yields an empty update set — provided mappings that share a destination
/// key agree on the value they copy there. (Two mappings copying different
/// values to one destination key re-create an update on every pass: the
/// later mapping wins, and the earlier one always differs again.)
pub proof fn lemma_updates_idempotent(
    items: Seq<PatchCopyItem>,
    src: Map<Seq<char>, Seq<u8>>,
    dst: Map<Seq<char>, Seq<u8>>,
)
    requires
        forall|i: int, j: int|
            #![trigger items[i].destination@, items[j].destination@]
            0 <= i < items.len() && 0 <= j < items.len() && items[i].destination@
                == items[j].destination@ ==> src[items[i].source@] == src[items[j].source@],
    ensures
        updates_of(items, src, dst.union_prefer_right(updates_of(items, src, dst))) == Map::<
            Seq<char>,
            Seq<u8>,
        >::empty(),
{
    let u = updates_of(items, src, dst);
    let merged = dst.union_prefer_right(u);
    assert forall|i: int| 0 <= i < items.len() implies (merged.contains_key(
        #[trigger] items[i].destination@,
    ) && merged[items[i].destination@] == src[items[i].source@]) by {
        let d = items[i].destination@;
        lemma_dest_covered(items, src, dst, d);
        if u.contains_key(d) {
            let w = choose|w: int|
                0 <= w < items.len() && #[trigger] items[w].destination@ == d && u[d]
                    == src[items[w].source@];
            assert(merged[d] == src[items[w].source@]);
            assert(src[items[w].source@] == src[items[i].source@]);
        } else {
            let w = choose|w: int|
                0 <= w < items.len() && #[trigger] items[w].destination@ == d && dst[d]
                    == src[items[w].source@];
            assert(merged[d] == dst[d]);
            assert(src[items[w].source@] == src[items[i].source@]);
        }
    }
    lemma_no_updates_when_agreeing(items, src, merged);
}

/// Byte-exact equality of two values, the only comparison the diff engine
/// uses.
fn bytes_eq(a: &Vec<u8>, b: &Vec<u8>) -> (r: bool)
    ensures
        r == (a@ == b@),
{
    if a.len() != b.len() {
        return false;
    }
    let n = a.len();
    let mut i: usize = 0;
    while i < n
        invariant
            n == a@.len() == b@.len(),
            0 <= i <= n,
            forall|j: int| 0 <= j < i ==> a@[j] == b@[j],
        decreases n - i,
    {
        if a[i] != b[i] {
            return false;
        }
        i += 1;
    }
    proof {
        assert(a@ =~= b@);
    }
    true
}

/// Compute the update set for a mapping list against the source and
/// destination data. Fails fast with the first mapping whose source key
/// the source data lacks; no partial result leaves this function.
pub fn compute_updates(items: &Vec<PatchCopyItem>, source: &SecretData, dest: &SecretData) -> (r:
    Result<SecretData, ReconcilerError>)
    requires
        source.well_formed(),
        dest.well_formed(),
    ensures
        match r {
            Ok(u) => u.well_formed() && all_sources_present(items@, source@) && u@ == updates_of(
                items@,
                source@,
                dest@,
            ),
            Err(e) => !all_sources_present(items@, source@) && (e matches
            ReconcilerError::SourceFieldMissing(k) && first_missing_source(items@, source@) == Some(
                k@,
            )),
        },
{
    let mut updates = SecretData::new();
    let n = items.len();
    let mut i: usize = 0;
    while i < n
        invariant
            n == items@.len(),
            0 <= i <= n,
            source.well_formed(),
            dest.well_formed(),
            updates.well_formed(),
            forall|j: int| 0 <= j < i ==> source@.contains_key(#[trigger] items@[j].source@),
            updates@ == updates_of(items@.take(i as int), source@, dest@),
        decreases n - i,
    {
        let item = &items[i];
        match source.get(&item.source) {
            None => {
                proof {
                    lemma_first_missing_skip(items@, source@, i as int);
                    assert(items@.skip(i as int)[0] == items@[i as int]);
                    assert(first_missing_source(items@, source@) == Some(item.source@));
                    lemma_first_missing_none(items@, source@);
                }
                return Err(ReconcilerError::SourceFieldMissing(item.source.clone()));
            },
            Some(source_value) => {
                let differs = match dest.get(&item.destination) {
                    None => true,
                    Some(dest_value) => !bytes_eq(source_value, dest_value),
                };
                proof {
                    assert(items@.take(i + 1).drop_last() =~= items@.take(i as int));
                    assert(items@.take(i + 1).last() == items@[i as int]);
                }
                if differs {
                    updates.set(item.destination.clone(), source_value.clone());
                }
            },
        }
        i += 1;
    }
    proof {
        assert(items@.take(n as int) =~= items@);
    }
    Ok(updates)
}

} // verus!
