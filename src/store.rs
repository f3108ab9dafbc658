//! The persistent store: one flash sector holding identical copies of the
//! wallet record, each checked by its CRC, recovered by plurality and healed
//! on load.
use vstd::prelude::*;

use crate::bytes::{le_value, push_bytes};
use crate::crypto::{crc32, crc32_of};
use crate::wallet::{
    decode_view, encode_view, lemma_decode_encode, lemma_encode_zero_crc, sealed, blank_view,
    Wallet, WalletView, OFF_CRC, WALLET_SIZE,
};

verus! {

/// Size of the erasable flash sector that holds the record.
pub const SECTOR_SIZE: usize = 131072;

/// Number of copies of the record in the sector: as many as fit.
pub const WALLET_REPEAT: usize = 34;

/// Bytes taken by all the copies.
pub const IMAGE_LEN: usize = 130050;

/// The copies fill the sector: one more would not fit.
pub proof fn lemma_copies_fill_sector()
    ensures
        IMAGE_LEN == WALLET_REPEAT * WALLET_SIZE,
        IMAGE_LEN <= SECTOR_SIZE < IMAGE_LEN + WALLET_SIZE,
{
}

/// The contents of the wallet sector.
pub struct FlashStore {
    pub image: Vec<u8>,
}

/// Copy `i` of the record in a sector image.
pub open spec fn copy_of(img: Seq<u8>, i: int) -> Seq<u8> {
    img.subrange(i * WALLET_SIZE, i * WALLET_SIZE + WALLET_SIZE)
}

/// The checksum stored in a serialized record.
pub open spec fn stored_crc(rec: Seq<u8>) -> u32 {
    le_value(rec.subrange(OFF_CRC as int, WALLET_SIZE as int))
}

/// The record with its checksum field zeroed, as it is checksummed.
pub open spec fn zeroed_crc(rec: Seq<u8>) -> Seq<u8> {
    rec.subrange(0, OFF_CRC as int) + seq![0u8, 0u8, 0u8, 0u8]
}

/// The stored checksum matches the record.
pub open spec fn record_valid(rec: Seq<u8>) -> bool {
    crc32_of(zeroed_crc(rec)) == stored_crc(rec)
}

pub open spec fn copy_valid(img: Seq<u8>, i: int) -> bool {
    record_valid(copy_of(img, i))
}

pub open spec fn copy_crc(img: Seq<u8>, i: int) -> u32 {
    stored_crc(copy_of(img, i))
}

/// Number of valid copies among the first `n` whose stored checksum is `c`.
pub open spec fn group_count(img: Seq<u8>, c: u32, n: int) -> nat
    decreases n,
{
    if n <= 0 {
        0
    } else {
        group_count(img, c, n - 1) + if copy_valid(img, n - 1) && copy_crc(img, n - 1) == c {
            1nat
        } else {
            0nat
        }
    }
}

/// Number of valid copies whose stored checksum is `c`.
pub open spec fn group_size(img: Seq<u8>, c: u32) -> nat {
    group_count(img, c, WALLET_REPEAT as int)
}

/// Among the first `n` copies, the valid one of the largest group, the lowest
/// index winning ties; -1 where none of them is valid.
pub open spec fn best_upto(img: Seq<u8>, n: int) -> int
    decreases n,
{
    if n <= 0 {
        -1
    } else {
        let b = best_upto(img, n - 1);
        if copy_valid(img, n - 1) && (b < 0 || group_size(img, copy_crc(img, n - 1)) > group_size(
            img,
            copy_crc(img, b),
        )) {
            n - 1
        } else {
            b
        }
    }
}

/// The copy that recovery elects.
pub open spec fn elected(img: Seq<u8>) -> int {
    best_upto(img, WALLET_REPEAT as int)
}

pub open spec fn has_valid_copy(img: Seq<u8>) -> bool {
    exists|i: int| 0 <= i < WALLET_REPEAT && copy_valid(img, i)
}

/// `n` copies of `rec`, back to back.
pub open spec fn repeat_record(rec: Seq<u8>, n: nat) -> Seq<u8>
    decreases n,
{
    if n == 0 {
        Seq::empty()
    } else {
        repeat_record(rec, (n - 1) as nat) + rec
    }
}

/// The sector after writing `w`: every copy holds `w` with its checksum set.
pub open spec fn stored_image(w: WalletView) -> Seq<u8> {
    repeat_record(encode_view(sealed(w)), WALLET_REPEAT as nat)
}

/// The elected copy is valid, its group is at least as large as that of any
/// valid copy, and strictly larger than that of any valid copy before it.
pub open spec fn is_plurality_winner(img: Seq<u8>, w: int) -> bool {
    &&& 0 <= w < WALLET_REPEAT
    &&& copy_valid(img, w)
    &&& forall|j: int|
        0 <= j < WALLET_REPEAT && copy_valid(img, j) ==> group_size(img, #[trigger] copy_crc(img, j))
            <= group_size(img, copy_crc(img, w))
    &&& forall|j: int|
        0 <= j < w && copy_valid(img, j) ==> group_size(img, #[trigger] copy_crc(img, j))
            < group_size(img, copy_crc(img, w))
}

proof fn lemma_best_upto(img: Seq<u8>, n: int)
    requires
        0 <= n <= WALLET_REPEAT,
    ensures
        best_upto(img, n) < n,
        best_upto(img, n) < 0 <==> forall|j: int| 0 <= j < n ==> !copy_valid(img, j),
        best_upto(img, n) >= 0 ==> {
            let b = best_upto(img, n);
            &&& copy_valid(img, b)
            &&& forall|j: int|
                0 <= j < n && copy_valid(img, j) ==> group_size(img, #[trigger] copy_crc(img, j))
                    <= group_size(img, copy_crc(img, b))
            &&& forall|j: int|
                0 <= j < b && copy_valid(img, j) ==> group_size(img, #[trigger] copy_crc(img, j))
                    < group_size(img, copy_crc(img, b))
        },
    decreases n,
{
    if n > 0 {
        lemma_best_upto(img, n - 1);
    }
}

/// Recovery elects a copy exactly when one is valid, and the copy it elects
/// is the plurality winner.
pub proof fn lemma_elected(img: Seq<u8>)
    ensures
        elected(img) >= 0 <==> has_valid_copy(img),
        elected(img) >= 0 ==> is_plurality_winner(img, elected(img)),
{
    lemma_best_upto(img, WALLET_REPEAT as int);
    if elected(img) < 0 {
        assert forall|i: int| 0 <= i < WALLET_REPEAT implies !copy_valid(img, i) by {}
    } else {
        assert(copy_valid(img, elected(img)));
    }
}

proof fn lemma_repeat_record(rec: Seq<u8>, n: nat)
    requires
        rec.len() == WALLET_SIZE,
    ensures
        repeat_record(rec, n).len() == n * WALLET_SIZE,
        forall|j: int| 0 <= j < n ==> #[trigger] copy_of(repeat_record(rec, n), j) == rec,
    decreases n,
{
    if n > 0 {
        let m = (n - 1) as nat;
        lemma_repeat_record(rec, m);
        let prev = repeat_record(rec, m);
        assert forall|j: int| 0 <= j < n implies #[trigger] copy_of(repeat_record(rec, n), j)
            == rec by {
            if j < m {
                assert(copy_of(prev, j) == rec);
                assert(copy_of(repeat_record(rec, n), j) =~= copy_of(prev, j));
            } else {
                assert(copy_of(repeat_record(rec, n), j) =~= rec);
            }
        }
    }
}

proof fn lemma_group_count_bound(img: Seq<u8>, c: u32, n: int, k: int)
    requires
        0 <= n,
    ensures
        group_count(img, c, n) <= n,
        0 <= k < n && !copy_valid(img, k) ==> group_count(img, c, n) < n,
    decreases n,
{
    if n > 0 {
        lemma_group_count_bound(img, c, n - 1, k);
    }
}

proof fn lemma_group_count_all(img: Seq<u8>, rec: Seq<u8>, n: int)
    requires
        0 <= n,
        record_valid(rec),
        forall|j: int| 0 <= j < n ==> #[trigger] copy_of(img, j) == rec,
    ensures
        group_count(img, stored_crc(rec), n) == n,
    decreases n,
{
    if n > 0 {
        lemma_group_count_all(img, rec, n - 1);
        assert(copy_of(img, n - 1) == rec);
    }
}

proof fn lemma_best_upto_first(img: Seq<u8>, rec: Seq<u8>, n: int)
    requires
        1 <= n <= WALLET_REPEAT,
        record_valid(rec),
        forall|j: int| 0 <= j < WALLET_REPEAT ==> #[trigger] copy_of(img, j) == rec,
    ensures
        best_upto(img, n) == 0,
    decreases n,
{
    assert(copy_of(img, 0) == rec);
    assert(best_upto(img, 0) == -1);
    if n > 1 {
        lemma_best_upto_first(img, rec, n - 1);
        assert(copy_of(img, n - 1) == rec);
        assert(copy_crc(img, n - 1) == copy_crc(img, 0));
    }
}

/// A serialized record with its checksum set passes the check.
pub proof fn lemma_sealed_valid(w: WalletView)
    requires
        w.wf(),
    ensures
        encode_view(sealed(w)).len() == WALLET_SIZE,
        record_valid(encode_view(sealed(w))),
        stored_crc(encode_view(sealed(w))) == sealed(w).crc,
        decode_view(encode_view(sealed(w))) == sealed(w),
{
    let s = sealed(w);
    lemma_decode_encode(s);
    lemma_encode_zero_crc(s);
    assert(s.with_crc(0) == w.with_crc(0));
}

/// Writing a record and loading it back gives the record, field for field,
/// with its checksum set; every copy is valid and agrees, so nothing is
/// rewritten.
pub proof fn lemma_load_after_write(w: WalletView)
    requires
        w.wf(),
    ensures
        has_valid_copy(stored_image(w)),
        decode_view(copy_of(stored_image(w), elected(stored_image(w)))) == sealed(w),
        sealed(w).with_crc(w.crc) == w,
        group_size(stored_image(w), copy_crc(stored_image(w), elected(stored_image(w))))
            == WALLET_REPEAT,
        image_after_load(stored_image(w)) == stored_image(w),
{
    let rec = encode_view(sealed(w));
    let img = stored_image(w);
    lemma_sealed_valid(w);
    lemma_repeat_record(rec, WALLET_REPEAT as nat);
    assert(copy_of(img, 0) == rec);
    lemma_best_upto_first(img, rec, WALLET_REPEAT as int);
    lemma_group_count_all(img, rec, WALLET_REPEAT as int);
    assert(sealed(w).with_crc(w.crc) =~= w);
}

/// The sector after loading: untouched where every copy is valid and in the
/// elected group, else every copy rewritten with the elected one.
pub open spec fn image_after_load(img: Seq<u8>) -> Seq<u8> {
    if group_size(img, copy_crc(img, elected(img))) == WALLET_REPEAT {
        img
    } else {
        repeat_record(copy_of(img, elected(img)), WALLET_REPEAT as nat)
    }
}

proof fn lemma_group_count_lone(img: Seq<u8>, c: u32, n: int, k: int)
    requires
        0 <= n,
        forall|j: int|
            0 <= j < n && j != k ==> !(copy_valid(img, j) && #[trigger] copy_crc(img, j) == c),
    ensures
        group_count(img, c, n) <= 1,
        group_count(img, c, n) <= (if 0 <= k < n { 1int } else { 0int }),
    decreases n,
{
    if n > 0 {
        lemma_group_count_lone(img, c, n - 1, k);
        if n - 1 != k {
            assert(!(copy_valid(img, n - 1) && copy_crc(img, n - 1) == c));
        }
    }
}

proof fn lemma_group_count_most(img: Seq<u8>, rec: Seq<u8>, n: int, k: int)
    requires
        0 <= n,
        record_valid(rec),
        forall|j: int| 0 <= j < n && j != k ==> #[trigger] copy_of(img, j) == rec,
    ensures
        group_count(img, stored_crc(rec), n) + (if 0 <= k < n { 1int } else { 0int }) >= n,
    decreases n,
{
    if n > 0 {
        lemma_group_count_most(img, rec, n - 1, k);
        if n - 1 != k {
            assert(copy_of(img, n - 1) == rec);
        }
    }
}

/// With every copy but one equal to a valid record, loading returns that
/// record, and afterwards every copy of the sector is that record and valid.
/// The damaged copy may hold anything, except a different record that carries
/// the same, matching checksum.
pub proof fn lemma_self_healing(img: Seq<u8>, k: int, rec: Seq<u8>)
    requires
        img.len() == IMAGE_LEN,
        rec.len() == WALLET_SIZE,
        record_valid(rec),
        0 <= k < WALLET_REPEAT,
        forall|j: int| 0 <= j < WALLET_REPEAT && j != k ==> #[trigger] copy_of(img, j) == rec,
        copy_valid(img, k) && copy_crc(img, k) == stored_crc(rec) ==> copy_of(img, k) == rec,
    ensures
        has_valid_copy(img),
        copy_of(img, elected(img)) == rec,
        forall|j: int|
            0 <= j < WALLET_REPEAT ==> #[trigger] copy_of(image_after_load(img), j) == rec
                && record_valid(copy_of(image_after_load(img), j)),
{
    let other = if k == 0 { 1int } else { 0int };
    assert(copy_of(img, other) == rec);
    assert(copy_valid(img, other));
    lemma_elected(img);
    let e = elected(img);
    let c = stored_crc(rec);
    lemma_group_count_most(img, rec, WALLET_REPEAT as int, k);
    assert(copy_crc(img, other) == c);
    if copy_of(img, k) == rec {
        assert forall|j: int| 0 <= j < WALLET_REPEAT implies #[trigger] copy_of(img, j) == rec by {
            if j != k {
                assert(copy_of(img, j) == rec);
            }
        }
        lemma_best_upto_first(img, rec, WALLET_REPEAT as int);
        lemma_group_count_all(img, rec, WALLET_REPEAT as int);
        assert(image_after_load(img) == img);
    } else {
        if e == k {
            assert(copy_crc(img, k) != c);
            assert forall|j: int|
                0 <= j < WALLET_REPEAT && j != k implies !(copy_valid(img, j) && #[trigger] copy_crc(
                    img,
                    j,
                ) == copy_crc(img, k)) by {
                assert(copy_of(img, j) == rec);
            }
            lemma_group_count_lone(img, copy_crc(img, k), WALLET_REPEAT as int, k);
            assert(group_size(img, copy_crc(img, other)) <= group_size(img, copy_crc(img, e)));
            assert(false);
        }
        assert(copy_of(img, e) == rec);
        assert(copy_crc(img, e) == c);
        if group_size(img, c) == WALLET_REPEAT {
            assert(copy_valid(img, k) && copy_crc(img, k) == c) by {
                lemma_group_count_lone_missing(img, c, WALLET_REPEAT as int, k);
            }
            assert(false);
        }
        lemma_repeat_record(rec, WALLET_REPEAT as nat);
    }
}

proof fn lemma_group_count_lone_missing(img: Seq<u8>, c: u32, n: int, k: int)
    requires
        0 <= k < n,
        group_count(img, c, n) == n,
    ensures
        copy_valid(img, k) && copy_crc(img, k) == c,
    decreases n,
{
    lemma_group_count_bound(img, c, n - 1, k);
    if k < n - 1 {
        assert(group_count(img, c, n - 1) == n - 1);
        lemma_group_count_lone_missing(img, c, n - 1, k);
    }
}

impl FlashStore {
    /// The sector holds exactly the copies.
    pub open spec fn wf(&self) -> bool {
        self.image@.len() == IMAGE_LEN
    }

    /// Takes a sector image as read from flash; `None` where its length is
    /// not that of the copies.
    pub fn from_image(image: Vec<u8>) -> (r: Option<FlashStore>)
        ensures
            r is Some <==> image@.len() == IMAGE_LEN,
            r is Some ==> r->0.image@ == image@,
    {
        if image.len() == IMAGE_LEN {
            Some(FlashStore { image })
        } else {
            None
        }
    }

    /// The sector of a device fresh from the factory: every copy holds the
    /// blank record with its checksum set.
    pub fn new() -> (r: FlashStore)
        ensures
            r.wf(),
            r.image@ == stored_image(blank_view()),
    {
        let mut store = FlashStore { image: Vec::new() };
        let blank = Wallet::new();
        write_wallet(&mut store, &blank);
        store
    }

    /// Erases the sector and programs `WALLET_REPEAT` copies of `rec`.
    fn program(&mut self, rec: &Vec<u8>)
        requires
            rec@.len() == WALLET_SIZE,
        ensures
            final(self).wf(),
            final(self).image@ == repeat_record(rec@, WALLET_REPEAT as nat),
    {
        let mut out: Vec<u8> = Vec::new();
        let mut i: usize = 0;
        while i < WALLET_REPEAT
            invariant
                0 <= i <= WALLET_REPEAT,
                rec@.len() == WALLET_SIZE,
                out@ == repeat_record(rec@, i as nat),
            decreases WALLET_REPEAT - i,
        {
            push_bytes(&mut out, rec.as_slice());
            i += 1;
        }
        proof {
            lemma_repeat_record(rec@, WALLET_REPEAT as nat);
        }
        self.image = out;
    }

    /// The bytes of copy `i`.
    fn copy_bytes(&self, i: usize) -> (r: Vec<u8>)
        requires
            self.wf(),
            i < WALLET_REPEAT,
        ensures
            r@ == copy_of(self.image@, i as int),
    {
        let base = i * WALLET_SIZE;
        let mut out: Vec<u8> = Vec::new();
        let mut k: usize = 0;
        while k < WALLET_SIZE
            invariant
                self.wf(),
                i < WALLET_REPEAT,
                base == i * WALLET_SIZE,
                0 <= k <= WALLET_SIZE,
                out@ == self.image@.subrange(base as int, base + k),
            decreases WALLET_SIZE - k,
        {
            out.push(self.image[base + k]);
            assert(out@ =~= self.image@.subrange(base as int, base + k + 1));
            k += 1;
        }
        out
    }

    /// Checks copy `i`: its stored checksum, and whether it matches.
    fn check_copy(&self, i: usize) -> (r: (bool, u32))
        requires
            self.wf(),
            i < WALLET_REPEAT,
        ensures
            r.0 == copy_valid(self.image@, i as int),
            r.1 == copy_crc(self.image@, i as int),
    {
        let mut rec = self.copy_bytes(i);
        let stored = crate::bytes::read_le_u32(rec.as_slice(), OFF_CRC);
        rec.set(OFF_CRC, 0);
        rec.set(OFF_CRC + 1, 0);
        rec.set(OFF_CRC + 2, 0);
        rec.set(OFF_CRC + 3, 0);
        proof {
            assert(rec@ =~= zeroed_crc(copy_of(self.image@, i as int)));
        }
        let c = crc32(rec.as_slice());
        (c == stored, stored)
    }
}

/// Persists `wallet` with its checksum set to every copy of the sector.
pub fn write_wallet(store: &mut FlashStore, wallet: &Wallet)
    ensures
        final(store).wf(),
        final(store).image@ == stored_image(wallet@),
{
    let sealed_wallet = wallet.seal();
    let rec = sealed_wallet.encode();
    store.program(&rec);
}

/// Number of valid copies whose stored checksum is `c`, from the checks of
/// every copy.
fn count_group(valid: &Vec<bool>, crcs: &Vec<u32>, c: u32, Ghost(img): Ghost<Seq<u8>>) -> (r: usize)
    requires
        valid@.len() == WALLET_REPEAT,
        crcs@.len() == WALLET_REPEAT,
        forall|j: int|
            0 <= j < WALLET_REPEAT ==> #[trigger] valid@[j] == copy_valid(img, j) && crcs@[j]
                == copy_crc(img, j),
    ensures
        r == group_size(img, c),
{
    let mut cnt: usize = 0;
    let mut j: usize = 0;
    while j < WALLET_REPEAT
        invariant
            valid@.len() == WALLET_REPEAT,
            crcs@.len() == WALLET_REPEAT,
            forall|j: int|
                0 <= j < WALLET_REPEAT ==> #[trigger] valid@[j] == copy_valid(img, j) && crcs@[j]
                    == copy_crc(img, j),
            0 <= j <= WALLET_REPEAT,
            cnt == group_count(img, c, j as int),
            cnt <= j,
        decreases WALLET_REPEAT - j,
    {
        assert(valid@[j as int] == copy_valid(img, j as int));
        if valid[j] && crcs[j] == c {
            cnt += 1;
        }
        j += 1;
    }
    cnt
}

/// Loads the wallet record. Each copy is checked by its CRC; among the valid
/// ones the copy of the largest group of equal checksums is elected, the
/// lowest index winning ties. Unless every copy is valid and in that group,
/// the sector is rewritten with the elected copy. Where no copy is valid
/// nothing can be trusted: the result is `None` and the caller must halt.
pub fn wallet(store: &mut FlashStore) -> (r: Option<Wallet>)
    requires
        old(store).wf(),
    ensures
        final(store).wf(),
        r is None <==> !has_valid_copy(old(store).image@),
        r is None ==> final(store).image@ == old(store).image@,
        r is Some ==> {
            let img = old(store).image@;
            let e = elected(img);
            &&& is_plurality_winner(img, e)
            &&& r->0@ == decode_view(copy_of(img, e))
            &&& final(store).image@ == image_after_load(img)
        },
{
    let ghost img = store.image@;
    let mut valid: Vec<bool> = Vec::new();
    let mut crcs: Vec<u32> = Vec::new();
    let mut i: usize = 0;
    while i < WALLET_REPEAT
        invariant
            store.wf(),
            store.image@ == img,
            0 <= i <= WALLET_REPEAT,
            valid@.len() == i,
            crcs@.len() == i,
            forall|j: int|
                0 <= j < i ==> #[trigger] valid@[j] == copy_valid(img, j) && crcs@[j] == copy_crc(
                    img,
                    j,
                ),
        decreases WALLET_REPEAT - i,
    {
        let (ok, c) = store.check_copy(i);
        valid.push(ok);
        crcs.push(c);
        i += 1;
    }
    let mut best: usize = WALLET_REPEAT;
    let mut best_count: usize = 0;
    let mut i: usize = 0;
    while i < WALLET_REPEAT
        invariant
            store.wf(),
            store.image@ == img,
            0 <= i <= WALLET_REPEAT,
            valid@.len() == WALLET_REPEAT,
            crcs@.len() == WALLET_REPEAT,
            forall|j: int|
                0 <= j < WALLET_REPEAT ==> #[trigger] valid@[j] == copy_valid(img, j) && crcs@[j]
                    == copy_crc(img, j),
            best == WALLET_REPEAT <==> best_upto(img, i as int) < 0,
            best < WALLET_REPEAT ==> best == best_upto(img, i as int) && best_count == group_size(
                img,
                copy_crc(img, best as int),
            ),
            best <= WALLET_REPEAT,
        decreases WALLET_REPEAT - i,
    {
        proof {
            lemma_best_upto(img, i as int);
        }
        assert(valid@[i as int] == copy_valid(img, i as int));
        if valid[i] {
            let cnt = count_group(&valid, &crcs, crcs[i], Ghost(img));
            if best == WALLET_REPEAT || cnt > best_count {
                best = i;
                best_count = cnt;
            }
        }
        i += 1;
    }
    proof {
        lemma_elected(img);
    }
    if best == WALLET_REPEAT {
        return None;
    }
    proof {
        lemma_group_count_bound(img, copy_crc(img, best as int), WALLET_REPEAT as int, 0);
    }
    let rec = store.copy_bytes(best);
    if best_count < WALLET_REPEAT {
        store.program(&rec);
    }
    proof {
        assert(rec@.subrange(0, WALLET_SIZE as int) =~= rec@);
    }
    Some(Wallet::decode(rec.as_slice(), 0))
}

} // verus!
