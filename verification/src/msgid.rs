//! Message ids: OneBot refers to a message by one 32-bit number, KOOK by one
//! or more id strings. The number is the CRC-32 of the first KOOK id, and a
//! store keeps what each number stands for.
use vstd::prelude::*;
use std::collections::HashMap;

verus! {

broadcast use vstd::std_specs::hash::group_hash_axioms;

/// One bit of the reflected CRC-32 shift register.
pub open spec fn crc_bit_step(c: u32) -> u32 {
    if c & 1u32 != 0u32 {
        0xEDB88320u32 ^ (c >> 1u32)
    } else {
        c >> 1u32
    }
}

/// Eight bits of the shift register: what one input byte does to it once
/// the byte is folded in.
pub open spec fn crc_byte_shift(c: u32) -> u32 {
    crc_bit_step(
        crc_bit_step(
            crc_bit_step(crc_bit_step(crc_bit_step(crc_bit_step(crc_bit_step(crc_bit_step(c)))))),
        ),
    )
}

/// `k` bits of the shift register.
pub open spec fn crc_bits(c: u32, k: nat) -> u32
    decreases k,
{
    if k == 0 {
        c
    } else {
        crc_bit_step(crc_bits(c, (k - 1) as nat))
    }
}

/// The CRC-32 register after the bytes of `data`, bit by bit, from the
/// initial all-ones value.
pub open spec fn crc32_register(data: Seq<u8>) -> u32
    decreases data.len(),
{
    if data.len() == 0 {
        0xFFFF_FFFFu32
    } else {
        crc_byte_shift(crc32_register(data.drop_last()) ^ (data.last() as u32))
    }
}

/// The CRC-32 (IEEE) checksum of `data`.
pub open spec fn crc32_spec(data: Seq<u8>) -> u32 {
    !crc32_register(data)
}

proof fn lemma_crc_bits_8(c: u32)
    ensures
        crc_bits(c, 8) == crc_byte_shift(c),
{
    reveal_with_fuel(crc_bits, 9);
}

/// The table-driven step agrees with eight bit steps: only the low byte of
/// the register decides what is folded into the rest.
proof fn lemma_table_step(crc: u32, b: u8)
    ensures
        crc_byte_shift(crc ^ (b as u32)) == (crc >> 8u32) ^ crc_byte_shift(
            (crc ^ (b as u32)) & 0xFFu32,
        ),
{
    let x: u32 = crc ^ (b as u32);
    let bb: u32 = b as u32;
    assert(bb < 256u32);
    assert((crc ^ bb) >> 8u32 == crc >> 8u32) by (bit_vector)
        requires
            bb < 256u32,
    ;
    assert(crc_byte_shift(x) == (x >> 8u32) ^ crc_byte_shift(x & 0xFFu32)) by (bit_vector);
}

/// Byte-wise exclusive or of three byte strings of one length.
pub open spec fn xor3_bytes(a: Seq<u8>, b: Seq<u8>, c: Seq<u8>) -> Seq<u8> {
    Seq::new(a.len(), |i: int| a[i] ^ b[i] ^ c[i])
}

proof fn lemma_bit_step_xor(x: u32, y: u32)
    ensures
        crc_bit_step(x ^ y) == crc_bit_step(x) ^ crc_bit_step(y),
{
    assert(crc_bit_step(x ^ y) == crc_bit_step(x) ^ crc_bit_step(y)) by (bit_vector);
}

proof fn lemma_bits_xor(x: u32, y: u32, k: nat)
    ensures
        crc_bits(x ^ y, k) == crc_bits(x, k) ^ crc_bits(y, k),
    decreases k,
{
    if k > 0 {
        lemma_bits_xor(x, y, (k - 1) as nat);
        lemma_bit_step_xor(crc_bits(x, (k - 1) as nat), crc_bits(y, (k - 1) as nat));
    }
}

proof fn lemma_byte_shift_xor(x: u32, y: u32)
    ensures
        crc_byte_shift(x ^ y) == crc_byte_shift(x) ^ crc_byte_shift(y),
{
    lemma_bits_xor(x, y, 8);
    lemma_crc_bits_8(x ^ y);
    lemma_crc_bits_8(x);
    lemma_crc_bits_8(y);
}

proof fn lemma_register_xor3(a: Seq<u8>, b: Seq<u8>, c: Seq<u8>)
    requires
        a.len() == b.len(),
        b.len() == c.len(),
    ensures
        crc32_register(xor3_bytes(a, b, c)) == crc32_register(a) ^ crc32_register(b)
            ^ crc32_register(c),
    decreases a.len(),
{
    let d = xor3_bytes(a, b, c);
    if a.len() == 0 {
        let f: u32 = 0xFFFF_FFFFu32;
        assert(f == f ^ f ^ f) by (bit_vector);
    } else {
        let (pa, pb, pc) = (a.drop_last(), b.drop_last(), c.drop_last());
        lemma_register_xor3(pa, pb, pc);
        assert(d.drop_last() =~= xor3_bytes(pa, pb, pc));
        let (ra, rb, rc) = (crc32_register(pa), crc32_register(pb), crc32_register(pc));
        let (x, y, z) = (a.last(), b.last(), c.last());
        assert(d.last() == x ^ y ^ z);
        let (xa, xb, xc) = (ra ^ (x as u32), rb ^ (y as u32), rc ^ (z as u32));
        assert((ra ^ rb ^ rc) ^ ((x ^ y ^ z) as u32) == xa ^ xb ^ xc) by (bit_vector)
            requires
                xa == ra ^ (x as u32),
                xb == rb ^ (y as u32),
                xc == rc ^ (z as u32),
        ;
        lemma_byte_shift_xor(xa ^ xb, xc);
        lemma_byte_shift_xor(xa, xb);
    }
}

/// CRC-32 is affine over exclusive or: for byte strings of one length,
/// the checksum of `a ^ b ^ c` is the exclusive or of their checksums.
pub proof fn law_crc32_xor3(a: Seq<u8>, b: Seq<u8>, c: Seq<u8>)
    requires
        a.len() == b.len(),
        b.len() == c.len(),
    ensures
        crc32_spec(xor3_bytes(a, b, c)) == crc32_spec(a) ^ crc32_spec(b) ^ crc32_spec(c),
{
    lemma_register_xor3(a, b, c);
    let (ra, rb, rc) = (crc32_register(a), crc32_register(b), crc32_register(c));
    assert(!(ra ^ rb ^ rc) == !ra ^ !rb ^ !rc) by (bit_vector);
}

/// The lookup table of eight bit steps for every byte value.
pub fn generate_crc32_table() -> (table: [u32; 256])
    ensures
        forall|i: int| 0 <= i < 256 ==> #[trigger] table@[i] == crc_byte_shift(i as u32),
{
    let mut table = [0u32; 256];
    let mut i: usize = 0;
    while i < 256
        invariant
            i <= 256,
            table@.len() == 256,
            forall|j: int| 0 <= j < i ==> #[trigger] table@[j] == crc_byte_shift(j as u32),
        decreases 256 - i,
    {
        let mut crc: u32 = i as u32;
        let mut k: usize = 0;
        while k < 8
            invariant
                k <= 8,
                i < 256,
                crc == crc_bits(i as u32, k as nat),
            decreases 8 - k,
        {
            if crc & 1 != 0 {
                crc = 0xEDB88320u32 ^ (crc >> 1);
            } else {
                crc = crc >> 1;
            }
            k = k + 1;
        }
        proof {
            lemma_crc_bits_8(i as u32);
        }
        table[i] = crc;
        i = i + 1;
    }
    table
}

/// The CRC-32 (IEEE) checksum of `data`, computed with a lookup table.
pub fn crc32(data: &[u8]) -> (r: u32)
    ensures
        r == crc32_spec(data@),
{
    let mut crc: u32 = 0xFFFF_FFFFu32;
    let table = generate_crc32_table();
    let n = data.len();
    let mut i: usize = 0;
    while i < n
        invariant
            n == data@.len(),
            i <= n,
            crc == crc32_register(data@.take(i as int)),
            forall|j: int| 0 <= j < 256 ==> #[trigger] table@[j] == crc_byte_shift(j as u32),
        decreases n - i,
    {
        let byte = data[i];
        let index = ((crc ^ (byte as u32)) & 0xFF) as usize;
        proof {
            lemma_table_step(crc, byte);
            assert(data@.take(i + 1).drop_last() =~= data@.take(i as int));
            assert(((crc ^ (byte as u32)) & 0xFFu32) < 256u32) by (bit_vector);
        }
        crc = (crc >> 8) ^ table[index];
        i = i + 1;
    }
    assert(data@.take(n as int) =~= data@);
    !crc
}

/// The most entries the store keeps before it starts afresh.
pub open spec fn store_limit() -> nat {
    9999999
}

/// The OneBot number for a message whose first KOOK id is `first`: the
/// CRC-32 of the id's UTF-8 bytes, read as a signed 32-bit number.
pub open spec fn msg_number(first: Seq<char>) -> i32 {
    crc32_spec(vstd::utf8::encode_utf8(first)) as i32
}

/// What the store keeps under a number: the KOOK ids of the message and
/// who wrote it.
pub type StoredMsg = (Seq<Seq<char>>, u64);

/// The store after `msg` is recorded under `n`: a store that holds more
/// than `store_limit()` numbers is emptied first.
pub open spec fn stored_after(before: Map<i32, StoredMsg>, n: i32, msg: StoredMsg) -> Map<
    i32,
    StoredMsg,
> {
    (if before.len() > store_limit() {
        Map::<i32, StoredMsg>::empty()
    } else {
        before
    }).insert(n, msg)
}

pub open spec fn strings_view(v: Seq<String>) -> Seq<Seq<char>> {
    v.map_values(|s: String| s@)
}

pub open spec fn stored_view(v: (Vec<String>, u64)) -> StoredMsg {
    (strings_view(v.0@), v.1)
}

/// The KOOK ids, and the sender, that each OneBot message number stands for.
pub struct MsgIdStore {
    map: HashMap<i32, (Vec<String>, u64)>,
}

impl View for MsgIdStore {
    type V = Map<i32, StoredMsg>;

    open spec fn view(&self) -> Map<i32, StoredMsg> {
        self.entries().map_values(|v: (Vec<String>, u64)| stored_view(v))
    }
}

impl MsgIdStore {
    pub closed spec fn entries(&self) -> Map<i32, (Vec<String>, u64)> {
        self.map@
    }

    /// An empty store.
    pub fn new() -> (r: MsgIdStore)
        ensures
            r@ == Map::<i32, StoredMsg>::empty(),
    {
        let r = MsgIdStore { map: HashMap::new() };
        assert(r@ =~= Map::<i32, StoredMsg>::empty());
        r
    }

    /// How many numbers the store knows.
    pub fn len(&self) -> (r: usize)
        ensures
            r == self@.len(),
    {
        proof {
            assert(self@.dom() =~= self.map@.dom());
        }
        self.map.len()
    }
}

/// Records that a new OneBot message number stands for the KOOK ids
/// `msg_ids`, written by `user_id`, and returns the number; an empty list
/// gets 0 and is not kept. A store that already holds more than 9999999
/// numbers is emptied first.
pub fn add_msg_id(store: &mut MsgIdStore, msg_ids: Vec<String>, user_id: u64) -> (r: i32)
    ensures
        msg_ids@.len() == 0 ==> r == 0 && final(store)@ == old(store)@,
        msg_ids@.len() > 0 ==> {
            &&& r == msg_number(msg_ids@[0]@)
            &&& final(store)@ == stored_after(old(store)@, r, (strings_view(msg_ids@), user_id))
        },
{
    if msg_ids.len() == 0 {
        return 0;
    }
    let crc_num = crc32(msg_ids[0].as_str().as_bytes()) as i32;
    proof {
        assert(old(store)@.dom() =~= old(store).map@.dom());
    }
    if store.map.len() > 9999999 {
        store.map.clear();
    }
    let ghost ids = strings_view(msg_ids@);
    store.map.insert(crc_num, (msg_ids, user_id));
    proof {
        assert(store@ =~= stored_after(old(store)@, crc_num, (ids, user_id)));
    }
    crc_num
}

/// The KOOK ids that OneBot message number `crc_num` stands for; none when
/// the store does not know it.
pub fn get_msg_id(store: &MsgIdStore, crc_num: i32) -> (r: Vec<String>)
    ensures
        strings_view(r@) == (if store@.contains_key(crc_num) {
            store@[crc_num].0
        } else {
            Seq::<Seq<char>>::empty()
        }),
{
    match store.map.get(&crc_num) {
        Some(v) => {
            let c = v.0.clone();
            assert(c@ =~= v.0@);
            c
        },
        None => {
            let e: Vec<String> = Vec::new();
            assert(strings_view(e@) =~= Seq::<Seq<char>>::empty());
            e
        },
    }
}

/// The OneBot number of the KOOK message `raw_id`, as `add_msg_id` gives
/// it to a message whose first KOOK id is `raw_id`.
pub fn cq_msg_id(raw_id: &str) -> (r: i32)
    ensures
        r == msg_number(raw_id@),
{
    crc32(raw_id.as_bytes()) as i32
}

/// The OneBot number of the KOOK message `raw_id` and who wrote it, as the
/// store recorded it under that number; 0 for a message it does not know.
pub fn get_cq_msg_id(store: &MsgIdStore, raw_id: &str) -> (r: (i32, u64))
    ensures
        r.0 == msg_number(raw_id@),
        r.1 == (if store@.contains_key(r.0) {
            store@[r.0].1
        } else {
            0
        }),
{
    let n = cq_msg_id(raw_id);
    match store.map.get(&n) {
        Some(v) => (n, v.1),
        None => (n, 0),
    }
}

/// The KOOK message a reply quotes: the first KOOK id stored under the
/// OneBot number `n`; none without a number, or when the store does not
/// know it.
pub fn quoted_msg_id(store: &MsgIdStore, n: Option<i32>) -> (r: Option<String>)
    ensures
        r is Some <==> (n is Some && store@.contains_key(n->0) && store@[n->0].0.len() > 0),
        r matches Some(id) ==> id@ == store@[n->0].0[0],
{
    match n {
        None => None,
        Some(k) => {
            let ids = get_msg_id(store, k);
            assert(strings_view(ids@).len() == ids@.len());
            if ids.len() == 0 {
                None
            } else {
                let first = ids[0].clone();
                assert(strings_view(ids@)[0] == ids@[0]@);
                Some(first)
            }
        },
    }
}

/// What is recorded can be read back: right after `add_msg_id` gives a
/// number for a non-empty list of ids written by `user_id`, `get_msg_id`
/// of that number gives the same ids, and the recall of a message with the
/// first of those ids (`get_cq_msg_id`) finds that number and that sender.
pub proof fn law_read_after_add(
    before: Map<i32, StoredMsg>,
    after: Map<i32, StoredMsg>,
    ids: Seq<Seq<char>>,
    user_id: u64,
    n: i32,
)
    requires
        ids.len() > 0,
        n == msg_number(ids[0]),
        after == stored_after(before, n, (ids, user_id)),
    ensures
        after.contains_key(n),
        after[n] == (ids, user_id),
        msg_number(ids[0]) == n && after[msg_number(ids[0])].1 == user_id,
{
}

/// Recording under one number leaves every other number as it was, as
/// long as the store is not full (it is emptied once it holds more than
/// 9999999 numbers).
pub proof fn law_add_keeps_others(
    before: Map<i32, StoredMsg>,
    msg: StoredMsg,
    n: i32,
    other: i32,
)
    requires
        before.len() <= store_limit(),
        other != n,
    ensures
        stored_after(before, n, msg).contains_key(other) == before.contains_key(other),
        before.contains_key(other) ==> stored_after(before, n, msg)[other] == before[other],
{
}

} // verus!
