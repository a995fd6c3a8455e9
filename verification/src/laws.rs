//! The engine's laws: what the storage contract guarantees across calls,
//! proved once and for all from the contracts alone.

use vstd::prelude::*;

use crate::file_info::Built;
use crate::file_info::Created;
use crate::file_info::FileInfo;
use crate::store::FileStoreError;
use crate::store::PatchOption;
use crate::store::ReadErrorKind;
use crate::store::StoreModel;
use crate::store::build_post;
use crate::store::create_post;
use crate::store::delete_post;
use crate::store::info_post;
use crate::store::patch_post;

verus! {

/// LAW: building a record from a valid `(length, metadata)` input, creating
/// it in a store that does not yet hold its identifier, and reading it back
/// yields offset zero, the declared length, and exactly the parsed metadata.
pub proof fn lemma_build_create_info(
    length: u64,
    metadata: Option<Seq<char>>,
    rb: Result<FileInfo<Built>, FileStoreError>,
    pre: StoreModel,
    post: StoreModel,
    rc: Result<FileInfo<Created>, FileStoreError>,
    ri: Result<FileInfo<Created>, FileStoreError>,
)
    requires
        build_post(length, metadata, rb),
        rb matches Ok(built),
        !pre.contains_key(rb->Ok_0@.id),
        length <= usize::MAX as u64,
        create_post(pre, post, rb->Ok_0@, rc),
        info_post(post, rb->Ok_0@.id, ri),
    ensures
        rc is Ok,
        ri matches Ok(fi) && fi@.offset == 0 && fi@.length == length && fi@.metadata == Some(
            match metadata {
                Some(s) => crate::metadata::parse_spec(s)->Ok_0,
                None => Seq::<(Seq<char>, Seq<char>)>::empty(),
            },
        ),
{
    let info = rb->Ok_0@;
    assert(info.length == length);
    assert(post.contains_key(info.id));
    assert(post[info.id].offset == 0);
}

/// LAW: a patch whose expected offset differs from the recorded one always
/// fails with the `OffsetMismatch` conflict and leaves the stored bytes and
/// the recorded offset unchanged.
pub proof fn lemma_patch_offset_mismatch(
    pre: StoreModel,
    post: StoreModel,
    id: Seq<char>,
    expected: u64,
    payload: Seq<u8>,
    r: Result<PatchOption, FileStoreError>,
)
    requires
        patch_post(pre, post, id, expected, payload, r),
        pre.contains_key(id),
        expected != pre[id].offset,
    ensures
        r == Err::<PatchOption, FileStoreError>(
            FileStoreError::ReadError(ReadErrorKind::OffsetMismatch),
        ),
        post == pre,
{
}

/// LAW: a record whose offset has reached its length is retained, and every
/// patch attempted on it afterward fails deterministically with the
/// `OffsetMismatch` conflict and changes nothing — completion is terminal.
pub proof fn lemma_patch_after_completion(
    pre: StoreModel,
    post: StoreModel,
    id: Seq<char>,
    expected: u64,
    payload: Seq<u8>,
    r: Result<PatchOption, FileStoreError>,
)
    requires
        patch_post(pre, post, id, expected, payload, r),
        pre.contains_key(id),
        pre[id].offset == pre[id].length,
    ensures
        r == Err::<PatchOption, FileStoreError>(
            FileStoreError::ReadError(ReadErrorKind::OffsetMismatch),
        ),
        post == pre,
{
}

/// LAW: deleting a stored record succeeds, and afterward `file_exists` is
/// false and `get_file_info` answers `NotFound`.
pub proof fn lemma_delete_then_absent(
    pre: StoreModel,
    post: StoreModel,
    id: Seq<char>,
    rd: Result<(), FileStoreError>,
    ri: Result<FileInfo<Created>, FileStoreError>,
)
    requires
        delete_post(pre, post, id, rd),
        pre.contains_key(id),
        info_post(post, id, ri),
    ensures
        rd is Ok,
        !post.contains_key(id),
        ri == Err::<FileInfo<Created>, FileStoreError>(
            FileStoreError::ReadError(ReadErrorKind::NotFound),
        ),
{
}

/// The bytes of `payloads` counted together.
pub open spec fn total_len(payloads: Seq<Seq<u8>>) -> int
    decreases payloads.len(),
{
    if payloads.len() == 0 {
        0
    } else {
        payloads[0].len() + total_len(payloads.drop_first())
    }
}

proof fn lemma_total_len_nonneg(payloads: Seq<Seq<u8>>)
    ensures
        total_len(payloads) >= 0,
    decreases payloads.len(),
{
    if payloads.len() > 0 {
        lemma_total_len_nonneg(payloads.drop_first());
    }
}

proof fn lemma_total_len_take_step(payloads: Seq<Seq<u8>>, i: int)
    requires
        payloads.len() >= 1,
        0 <= i < payloads.len(),
    ensures
        total_len(payloads.take(i + 1)) == payloads[0].len() + total_len(
            payloads.drop_first().take(i),
        ),
    decreases i,
{
    let t = payloads.take(i + 1);
    assert(t.len() == i + 1);
    assert(t[0] == payloads[0]);
    assert(t.drop_first() =~= payloads.drop_first().take(i));
}

/// LAW: sequential patches whose payloads are nonempty and cover the rest of
/// the record `[offset, length)` in increasing, contiguous, non-overlapping
/// order — each issued at the then-recorded offset — succeed one by one,
/// report `Patched` at every step but the last, report `Completed` exactly at
/// the last, and leave the record complete. `lemma_patch_after_completion`
/// then refuses every further patch.
pub proof fn lemma_contiguous_patches_complete_once(
    id: Seq<char>,
    payloads: Seq<Seq<u8>>,
    stores: Seq<StoreModel>,
    rs: Seq<Result<PatchOption, FileStoreError>>,
)
    requires
        payloads.len() >= 1,
        stores.len() == payloads.len() + 1,
        rs.len() == payloads.len(),
        forall|i: int| 0 <= i < payloads.len() ==> (#[trigger] payloads[i]).len() > 0,
        stores[0].contains_key(id),
        stores[0][id].offset + total_len(payloads) == stores[0][id].length,
        forall|i: int|
            0 <= i < payloads.len() ==> patch_post(
                #[trigger] stores[i],
                stores[i + 1],
                id,
                (stores[0][id].offset + total_len(payloads.take(i))) as u64,
                payloads[i],
                rs[i],
            ),
    ensures
        forall|i: int|
            0 <= i < payloads.len() - 1 ==> #[trigger] rs[i] == Ok::<PatchOption, FileStoreError>(
                PatchOption::Patched(
                    (stores[0][id].offset + total_len(payloads.take(i + 1))) as u64,
                ),
            ),
        rs[payloads.len() - 1] matches Ok(o) && o is Completed,
        stores[payloads.len() as int].contains_key(id),
        stores[payloads.len() as int][id].offset == stores[payloads.len() as int][id].length,
    decreases payloads.len(),
{
    let s0 = stores[0];
    let rec = s0[id];
    let p0 = payloads[0];
    lemma_total_len_nonneg(payloads.drop_first());
    assert(payloads.take(0) =~= Seq::<Seq<u8>>::empty());
    assert(total_len(payloads.take(0)) == 0);
    assert(patch_post(stores[0], stores[1], id, rec.offset, p0, rs[0]));
    assert(rec.offset < rec.length);
    assert(p0.len() <= rec.length - rec.offset);
    let new_off = (rec.offset + p0.len()) as u64;
    if payloads.len() == 1 {
        assert(new_off == rec.length);
        assert(rs[0] matches Ok(o) && o is Completed);
        assert(stores[1][id].offset == stores[1][id].length);
    } else {
        assert(total_len(payloads.drop_first()) > 0) by {
            let d = payloads.drop_first();
            assert(d[0] == payloads[1]);
            assert(d[0].len() > 0);
            lemma_total_len_nonneg(d.drop_first());
        }
        assert(new_off < rec.length);
        assert(payloads.take(1) =~= seq![p0]);
        assert(total_len(payloads.take(1)) == p0.len()) by {
            assert(payloads.take(1).drop_first() =~= Seq::<Seq<u8>>::empty());
        }
        assert(rs[0] == Ok::<PatchOption, FileStoreError>(PatchOption::Patched(new_off)));
        let stores2 = stores.drop_first();
        let rs2 = rs.drop_first();
        let payloads2 = payloads.drop_first();
        assert(stores2[0] == stores[1]);
        assert(stores2[0].contains_key(id));
        assert(stores2[0][id].offset == new_off);
        assert(stores2[0][id].length == rec.length);
        assert(stores2[0][id].offset + total_len(payloads2) == stores2[0][id].length);
        assert forall|i: int|
            0 <= i < payloads2.len() implies patch_post(
            #[trigger] stores2[i],
            stores2[i + 1],
            id,
            (stores2[0][id].offset + total_len(payloads2.take(i))) as u64,
            payloads2[i],
            rs2[i],
        ) by {
            assert(stores2[i] == stores[i + 1]);
            assert(stores2[i + 1] == stores[i + 2]);
            assert(payloads2[i] == payloads[i + 1]);
            assert(rs2[i] == rs[i + 1]);
            lemma_total_len_take_step(payloads, i);
            assert(patch_post(
                stores[i + 1],
                stores[i + 2],
                id,
                (stores[0][id].offset + total_len(payloads.take(i + 1))) as u64,
                payloads[i + 1],
                rs[i + 1],
            ));
        }
        lemma_contiguous_patches_complete_once(id, payloads2, stores2, rs2);
        assert forall|i: int|
            0 <= i < payloads.len() - 1 implies #[trigger] rs[i] == Ok::<
            PatchOption,
            FileStoreError,
        >(
            PatchOption::Patched((stores[0][id].offset + total_len(payloads.take(i + 1))) as u64),
        ) by {
            if i > 0 {
                assert(rs2[i - 1] == rs[i]);
                lemma_total_len_take_step(payloads, i);
                assert(rs2[i - 1] == Ok::<PatchOption, FileStoreError>(
                    PatchOption::Patched(
                        (stores2[0][id].offset + total_len(payloads2.take(i - 1 + 1))) as u64,
                    ),
                ));
            }
        }
        assert(rs[payloads.len() - 1] == rs2[payloads2.len() - 1]);
    }
}

} // verus!