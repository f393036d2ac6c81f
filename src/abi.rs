//! The guest data layout: which record layout an API version selects, and
//! the encoding of host values into guest bytes and back.
use vstd::prelude::*;
use crate::version::SemVer;

verus! {

/// Layout of the event record given to log handlers.
#[derive(Clone, Copy, Debug, PartialEq, Eq, Structural)]
pub enum LogLayout {
    /// The first transaction record layout.
    V1,
    /// The transaction record with its input data, from API version 0.0.2.
    V2Transaction,
}

/// Layout of the record given to call handlers.
#[derive(Clone, Copy, Debug, PartialEq, Eq, Structural)]
pub enum CallLayout {
    V1,
    /// With the call's outputs, from API version 0.0.3.
    V3Call,
}

/// Layout of the argument of the contract-call import.
#[derive(Clone, Copy, Debug, PartialEq, Eq, Structural)]
pub enum ContractCallLayout {
    V1,
    /// With the function signature, from API version 0.0.4.
    V4Signature,
}

/// Whether `api_version` is at least `0.0.patch`.
pub open spec fn at_least_patch(api_version: SemVer, patch: u64) -> bool {
    (SemVer { major: 0, minor: 0, patch }).spec_le(api_version)
}

pub fn log_layout(api_version: SemVer) -> (r: LogLayout)
    ensures
        r == (if at_least_patch(api_version, 2) { LogLayout::V2Transaction } else { LogLayout::V1 }),
{
    if SemVer::new(0, 0, 2).le(&api_version) {
        LogLayout::V2Transaction
    } else {
        LogLayout::V1
    }
}

pub fn call_layout(api_version: SemVer) -> (r: CallLayout)
    ensures
        r == (if at_least_patch(api_version, 3) { CallLayout::V3Call } else { CallLayout::V1 }),
{
    if SemVer::new(0, 0, 3).le(&api_version) {
        CallLayout::V3Call
    } else {
        CallLayout::V1
    }
}

pub fn contract_call_layout(api_version: SemVer) -> (r: ContractCallLayout)
    ensures
        r == (if at_least_patch(api_version, 4) { ContractCallLayout::V4Signature } else { ContractCallLayout::V1 }),
{
    if SemVer::new(0, 0, 4).le(&api_version) {
        ContractCallLayout::V4Signature
    } else {
        ContractCallLayout::V1
    }
}

/// The four little-endian bytes of `x`.
pub open spec fn u32_bytes(x: u32) -> Seq<u8> {
    seq![(x & 0xff) as u8, ((x >> 8u32) & 0xff) as u8, ((x >> 16u32) & 0xff) as u8, (x >> 24u32) as u8]
}

/// The value of the four little-endian bytes `b0..b3`.
pub open spec fn u32_from(b0: u8, b1: u8, b2: u8, b3: u8) -> u32 {
    (b0 as u32) | ((b1 as u32) << 8u32) | ((b2 as u32) << 16u32) | ((b3 as u32) << 24u32)
}

/// Reads a `u32` at `at`: the value and the position after it.
pub open spec fn dec_u32(b: Seq<u8>, at: int) -> Option<(u32, int)> {
    if 0 <= at && at + 4 <= b.len() {
        Some((u32_from(b[at], b[at + 1], b[at + 2], b[at + 3]), at + 4))
    } else {
        None
    }
}

/// A byte array: its length as a `u32`, then its bytes.
pub open spec fn bytes_enc(x: Seq<u8>) -> Seq<u8> {
    u32_bytes(x.len() as u32) + x
}

/// Reads a byte array at `at`.
pub open spec fn dec_bytes(b: Seq<u8>, at: int) -> Option<(Seq<u8>, int)> {
    match dec_u32(b, at) {
        Some((len, p)) => if p + len <= b.len() {
            Some((b.subrange(p, p + len), p + len))
        } else {
            None
        },
        None => None,
    }
}

/// A boolean: a `u32` that is 1 for true and 0 for false.
pub open spec fn bool_enc(x: bool) -> Seq<u8> {
    u32_bytes(if x { 1 } else { 0 })
}

/// Reads a boolean at `at`; other values than 0 and 1 are refused.
pub open spec fn dec_bool(b: Seq<u8>, at: int) -> Option<(bool, int)> {
    match dec_u32(b, at) {
        Some((v, p)) => if v == 0 {
            Some((false, p))
        } else if v == 1 {
            Some((true, p))
        } else {
            None
        },
        None => None,
    }
}

proof fn lemma_u32_round_trip(x: u32)
    ensures
        u32_from(u32_bytes(x)[0], u32_bytes(x)[1], u32_bytes(x)[2], u32_bytes(x)[3]) == x,
{
    let b0 = (x & 0xff) as u8;
    let b1 = ((x >> 8u32) & 0xff) as u8;
    let b2 = ((x >> 16u32) & 0xff) as u8;
    let b3 = (x >> 24u32) as u8;
    assert(((x & 0xff) as u8 as u32) | ((((x >> 8u32) & 0xff) as u8 as u32) << 8u32) | ((((x >> 16u32) & 0xff) as u8 as u32) << 16u32)
        | (((x >> 24u32) as u8 as u32) << 24u32) == x) by (bit_vector);
}

/// Reading a `u32` where it was written gives it back, whatever surrounds it.
pub proof fn lemma_u32_read_back(pre: Seq<u8>, x: u32, post: Seq<u8>)
    ensures
        dec_u32(pre + u32_bytes(x) + post, pre.len() as int) == Some((x, pre.len() + 4int)),
{
    let b = pre + u32_bytes(x) + post;
    let p = pre.len() as int;
    assert(b[p] == u32_bytes(x)[0]);
    assert(b[p + 1] == u32_bytes(x)[1]);
    assert(b[p + 2] == u32_bytes(x)[2]);
    assert(b[p + 3] == u32_bytes(x)[3]);
    lemma_u32_round_trip(x);
}

/// Reading a byte array where it was written gives it back, whatever
/// surrounds it.
pub proof fn lemma_bytes_read_back(pre: Seq<u8>, x: Seq<u8>, post: Seq<u8>)
    requires
        x.len() <= u32::MAX,
    ensures
        dec_bytes(pre + bytes_enc(x) + post, pre.len() as int) == Some((x, pre.len() + 4int + x.len())),
{
    let b = pre + bytes_enc(x) + post;
    assert(b =~= pre + u32_bytes(x.len() as u32) + (x + post));
    lemma_u32_read_back(pre, x.len() as u32, x + post);
    assert(b.subrange(pre.len() + 4 as int, pre.len() + 4 + x.len() as int) =~= x);
}

/// Reading a boolean where it was written gives it back, whatever surrounds
/// it.
pub proof fn lemma_bool_read_back(pre: Seq<u8>, x: bool, post: Seq<u8>)
    ensures
        dec_bool(pre + bool_enc(x) + post, pre.len() as int) == Some((x, pre.len() + 4int)),
{
    lemma_u32_read_back(pre, if x { 1 } else { 0 }, post);
}

/// Appends the bytes of `x`.
pub fn put_u32(out: &mut Vec<u8>, x: u32)
    ensures
        final(out)@ == old(out)@ + u32_bytes(x),
{
    out.push((x & 0xff) as u8);
    out.push(((x >> 8u32) & 0xff) as u8);
    out.push(((x >> 16u32) & 0xff) as u8);
    out.push((x >> 24u32) as u8);
    assert(final(out)@ =~= old(out)@ + u32_bytes(x));
}

/// Reads a `u32` at `at`.
pub fn get_u32(b: &Vec<u8>, at: usize) -> (r: Option<(u32, usize)>)
    ensures
        match r {
            Some((v, q)) => dec_u32(b@, at as int) == Some((v, q as int)),
            None => dec_u32(b@, at as int) is None,
        },
{
    if at > b.len() || b.len() - at < 4 {
        return None;
    }
    let v = (b[at] as u32) | ((b[at + 1] as u32) << 8u32) | ((b[at + 2] as u32) << 16u32) | ((b[at + 3] as u32) << 24u32);
    Some((v, at + 4))
}

/// Appends a byte array.
pub fn put_bytes(out: &mut Vec<u8>, x: &Vec<u8>)
    requires
        x@.len() <= u32::MAX,
    ensures
        final(out)@ == old(out)@ + bytes_enc(x@),
{
    put_u32(out, x.len() as u32);
    let mut i: usize = 0;
    let ghost mid = out@;
    while i < x.len()
        invariant
            i <= x@.len(),
            out@ == mid + x@.subrange(0, i as int),
        decreases x@.len() - i,
    {
        out.push(x[i]);
        i = i + 1;
        assert(out@ =~= mid + x@.subrange(0, i as int));
    }
    assert(x@.subrange(0, x@.len() as int) =~= x@);
    assert(final(out)@ =~= old(out)@ + bytes_enc(x@));
}

/// Reads a byte array at `at`.
pub fn get_bytes(b: &Vec<u8>, at: usize) -> (r: Option<(Vec<u8>, usize)>)
    ensures
        match r {
            Some((w, q)) => dec_bytes(b@, at as int) == Some((w@, q as int)),
            None => dec_bytes(b@, at as int) is None,
        },
{
    match get_u32(b, at) {
        None => None,
        Some((len, p)) => {
            if b.len() - p < len as usize {
                return None;
            }
            let end = p + len as usize;
            let mut w: Vec<u8> = Vec::new();
            let mut i: usize = p;
            while i < end
                invariant
                    p <= i <= end,
                    end <= b@.len(),
                    w@ == b@.subrange(p as int, i as int),
                decreases end - i,
            {
                w.push(b[i]);
                i = i + 1;
                assert(w@ =~= b@.subrange(p as int, i as int));
            }
            Some((w, end))
        },
    }
}

/// Appends a boolean.
pub fn put_bool(out: &mut Vec<u8>, x: bool)
    ensures
        final(out)@ == old(out)@ + bool_enc(x),
{
    put_u32(out, if x { 1 } else { 0 });
}

/// Reads a boolean at `at`.
pub fn get_bool(b: &Vec<u8>, at: usize) -> (r: Option<(bool, usize)>)
    ensures
        match r {
            Some((v, q)) => dec_bool(b@, at as int) == Some((v, q as int)),
            None => dec_bool(b@, at as int) is None,
        },
{
    match get_u32(b, at) {
        Some((0, p)) => Some((false, p)),
        Some((1, p)) => Some((true, p)),
        _ => None,
    }
}

/// Byte-array fields, one after the other.
pub open spec fn fields_enc(fs: Seq<Seq<u8>>) -> Seq<u8>
    decreases fs.len(),
{
    if fs.len() == 0 {
        Seq::empty()
    } else {
        fields_enc(fs.drop_last()) + bytes_enc(fs.last())
    }
}

/// Reads `n` byte-array fields at `at`.
pub open spec fn dec_fields(b: Seq<u8>, at: int, n: nat) -> Option<(Seq<Seq<u8>>, int)>
    decreases n,
{
    if n == 0 {
        Some((Seq::empty(), at))
    } else {
        match dec_fields(b, at, (n - 1) as nat) {
            Some((fs, p)) => match dec_bytes(b, p) {
                Some((f, q)) => Some((fs.push(f), q)),
                None => None,
            },
            None => None,
        }
    }
}

/// Reading fields where they were written gives them back, whatever
/// surrounds them.
pub proof fn lemma_fields_read_back(pre: Seq<u8>, fs: Seq<Seq<u8>>, post: Seq<u8>)
    requires
        forall|i: int| 0 <= i < fs.len() ==> (#[trigger] fs[i]).len() <= u32::MAX,
    ensures
        dec_fields(pre + fields_enc(fs) + post, pre.len() as int, fs.len()) == Some((fs, (pre.len() + fields_enc(fs).len()) as int)),
    decreases fs.len(),
{
    if fs.len() > 0 {
        let init = fs.drop_last();
        let l = fs.last();
        assert forall|i: int| 0 <= i < init.len() implies (#[trigger] init[i]).len() <= u32::MAX by {
            assert(init[i] == fs[i]);
        }
        assert(l.len() <= u32::MAX) by {
            assert(l == fs[fs.len() - 1]);
        }
        let b = pre + fields_enc(fs) + post;
        assert(b =~= pre + fields_enc(init) + (bytes_enc(l) + post));
        lemma_fields_read_back(pre, init, bytes_enc(l) + post);
        assert(b =~= (pre + fields_enc(init)) + bytes_enc(l) + post);
        lemma_bytes_read_back(pre + fields_enc(init), l, post);
        assert(init.push(l) =~= fs);
    }
}

/// A transaction as handlers see it; `input` exists only in the layout of
/// API version 0.0.2 and later.
#[derive(Debug)]
pub struct TransactionRecord {
    pub hash: Vec<u8>,
    pub index: Vec<u8>,
    pub from: Vec<u8>,
    pub to: Option<Vec<u8>>,
    pub value: Vec<u8>,
    pub gas_used: Vec<u8>,
    pub gas_price: Vec<u8>,
    pub input: Vec<u8>,
}

/// A transaction record as values.
pub struct TransactionView {
    pub hash: Seq<u8>,
    pub index: Seq<u8>,
    pub from: Seq<u8>,
    pub to: Option<Seq<u8>>,
    pub value: Seq<u8>,
    pub gas_used: Seq<u8>,
    pub gas_price: Seq<u8>,
    pub input: Seq<u8>,
}

impl View for TransactionRecord {
    type V = TransactionView;

    open spec fn view(&self) -> TransactionView {
        TransactionView {
            hash: self.hash@,
            index: self.index@,
            from: self.from@,
            to: match self.to {
                Some(t) => Some(t@),
                None => None,
            },
            value: self.value@,
            gas_used: self.gas_used@,
            gas_price: self.gas_price@,
            input: self.input@,
        }
    }
}

/// The fields of a transaction in layout order; an absent `to` is written
/// empty.
pub open spec fn tx_fields(t: TransactionView, layout: LogLayout) -> Seq<Seq<u8>> {
    let base = seq![
        t.hash,
        t.index,
        t.from,
        match t.to {
            Some(x) => x,
            None => Seq::empty(),
        },
        t.value,
        t.gas_used,
        t.gas_price,
    ];
    match layout {
        LogLayout::V1 => base,
        LogLayout::V2Transaction => base.push(t.input),
    }
}

/// A transaction in guest bytes: whether `to` is present, then its fields.
pub open spec fn tx_enc(t: TransactionView, layout: LogLayout) -> Seq<u8> {
    bool_enc(t.to is Some) + fields_enc(tx_fields(t, layout))
}

/// The number of fields of a layout.
pub open spec fn tx_field_count(layout: LogLayout) -> nat {
    match layout {
        LogLayout::V1 => 7,
        LogLayout::V2Transaction => 8,
    }
}

/// The transaction made of decoded parts; the v1 layout has no input.
pub open spec fn tx_from_fields(has_to: bool, fs: Seq<Seq<u8>>, layout: LogLayout) -> TransactionView {
    TransactionView {
        hash: fs[0],
        index: fs[1],
        from: fs[2],
        to: if has_to { Some(fs[3]) } else { None },
        value: fs[4],
        gas_used: fs[5],
        gas_price: fs[6],
        input: match layout {
            LogLayout::V1 => Seq::empty(),
            LogLayout::V2Transaction => fs[7],
        },
    }
}

/// Reads a transaction of the layout at `at`.
pub open spec fn dec_tx(b: Seq<u8>, at: int, layout: LogLayout) -> Option<(TransactionView, int)> {
    match dec_bool(b, at) {
        Some((has_to, p)) => match dec_fields(b, p, tx_field_count(layout)) {
            Some((fs, q)) => Some((tx_from_fields(has_to, fs, layout), q)),
            None => None,
        },
        None => None,
    }
}

/// What a layout keeps of a transaction: all of it, but the input under v1.
pub open spec fn tx_kept(t: TransactionView, layout: LogLayout) -> TransactionView {
    match layout {
        LogLayout::V1 => TransactionView { input: Seq::empty(), ..t },
        LogLayout::V2Transaction => t,
    }
}

/// Whether every byte array of the transaction has a length that fits a
/// `u32`.
pub open spec fn tx_fits(t: TransactionView) -> bool {
    &&& t.hash.len() <= u32::MAX
    &&& t.index.len() <= u32::MAX
    &&& t.from.len() <= u32::MAX
    &&& (t.to matches Some(x) ==> x.len() <= u32::MAX)
    &&& t.value.len() <= u32::MAX
    &&& t.gas_used.len() <= u32::MAX
    &&& t.gas_price.len() <= u32::MAX
    &&& t.input.len() <= u32::MAX
}

/// Whether every byte array of the transaction can be written: its length
/// fits a `u32`.
pub fn transaction_fits(t: &TransactionRecord) -> (r: bool)
    ensures
        r == tx_fits(t@),
{
    let max = u32::MAX as usize;
    t.hash.len() <= max && t.index.len() <= max && t.from.len() <= max && match &t.to {
        Some(x) => x.len() <= max,
        None => true,
    } && t.value.len() <= max && t.gas_used.len() <= max && t.gas_price.len() <= max && t.input.len() <= max
}

/// Round trip: reading a transaction where it was written in a layout gives
/// back what that layout keeps of it, whatever surrounds it.
pub proof fn lemma_tx_read_back(pre: Seq<u8>, t: TransactionView, layout: LogLayout, post: Seq<u8>)
    requires
        tx_fits(t),
    ensures
        dec_tx(pre + tx_enc(t, layout) + post, pre.len() as int, layout) == Some((tx_kept(t, layout), (pre.len() + tx_enc(t, layout).len()) as int)),
{
    let fs = tx_fields(t, layout);
    let b = pre + tx_enc(t, layout) + post;
    assert(b =~= pre + bool_enc(t.to is Some) + (fields_enc(fs) + post));
    lemma_bool_read_back(pre, t.to is Some, fields_enc(fs) + post);
    assert forall|i: int| 0 <= i < fs.len() implies (#[trigger] fs[i]).len() <= u32::MAX by {
    }
    assert(b =~= (pre + bool_enc(t.to is Some)) + fields_enc(fs) + post);
    lemma_fields_read_back(pre + bool_enc(t.to is Some), fs, post);
    assert(tx_from_fields(t.to is Some, fs, layout) == tx_kept(t, layout));
}

proof fn lemma_fields_step(fs: Seq<Seq<u8>>, k: int)
    requires
        0 <= k < fs.len(),
    ensures
        fields_enc(fs.take(k + 1)) == fields_enc(fs.take(k)) + bytes_enc(fs[k]),
{
    assert(fs.take(k + 1).drop_last() =~= fs.take(k));
}

/// Appends the field at `k` of `fs` after the first `k` fields.
fn put_field(out: &mut Vec<u8>, x: &Vec<u8>, Ghost(fs): Ghost<Seq<Seq<u8>>>, Ghost(start): Ghost<Seq<u8>>, Ghost(k): Ghost<int>)
    requires
        0 <= k < fs.len(),
        x@ == fs[k],
        x@.len() <= u32::MAX,
        old(out)@ == start + fields_enc(fs.take(k)),
    ensures
        final(out)@ == start + fields_enc(fs.take(k + 1)),
{
    put_bytes(out, x);
    proof {
        lemma_fields_step(fs, k);
    }
    assert(final(out)@ =~= start + fields_enc(fs.take(k + 1)));
}

/// Appends the guest bytes of a transaction in a layout.
pub fn put_transaction(out: &mut Vec<u8>, t: &TransactionRecord, layout: LogLayout)
    requires
        tx_fits(t@),
    ensures
        final(out)@ == old(out)@ + tx_enc(t@, layout),
{
    let ghost fs = tx_fields(t@, layout);
    let empty: Vec<u8> = Vec::new();
    put_bool(out, t.to.is_some());
    let ghost start = out@;
    assert(out@ =~= start + fields_enc(fs.take(0)));
    put_field(out, &t.hash, Ghost(fs), Ghost(start), Ghost(0));
    put_field(out, &t.index, Ghost(fs), Ghost(start), Ghost(1));
    put_field(out, &t.from, Ghost(fs), Ghost(start), Ghost(2));
    match &t.to {
        Some(x) => put_field(out, x, Ghost(fs), Ghost(start), Ghost(3)),
        None => put_field(out, &empty, Ghost(fs), Ghost(start), Ghost(3)),
    }
    put_field(out, &t.value, Ghost(fs), Ghost(start), Ghost(4));
    put_field(out, &t.gas_used, Ghost(fs), Ghost(start), Ghost(5));
    put_field(out, &t.gas_price, Ghost(fs), Ghost(start), Ghost(6));
    match layout {
        LogLayout::V1 => {
            assert(fs.take(7) =~= fs);
        },
        LogLayout::V2Transaction => {
            put_field(out, &t.input, Ghost(fs), Ghost(start), Ghost(7));
            assert(fs.take(8) =~= fs);
        },
    }
    assert(final(out)@ =~= old(out)@ + tx_enc(t@, layout));
}

/// The guest bytes of a transaction in a layout.
pub fn encode_transaction(t: &TransactionRecord, layout: LogLayout) -> (r: Vec<u8>)
    requires
        tx_fits(t@),
    ensures
        r@ == tx_enc(t@, layout),
{
    let mut out: Vec<u8> = Vec::new();
    put_transaction(&mut out, t, layout);
    assert(out@ =~= tx_enc(t@, layout));
    out
}

/// Reads `n` byte-array fields at `at`.
pub fn get_fields(b: &Vec<u8>, at: usize, n: usize) -> (r: Option<(Vec<Vec<u8>>, usize)>)
    ensures
        match r {
            Some((v, q)) => dec_fields(b@, at as int, n as nat) == Some((v@.map_values(|f: Vec<u8>| f@), q as int)),
            None => dec_fields(b@, at as int, n as nat) is None,
        },
{
    let mut v: Vec<Vec<u8>> = Vec::new();
    let mut p: usize = at;
    let mut k: usize = 0;
    assert(v@.map_values(|f: Vec<u8>| f@) =~= Seq::<Seq<u8>>::empty());
    while k < n
        invariant
            k <= n,
            dec_fields(b@, at as int, k as nat) == Some((v@.map_values(|f: Vec<u8>| f@), p as int)),
        decreases n - k,
    {
        match get_bytes(b, p) {
            Some((f, q)) => {
                let ghost before = v@;
                v.push(f);
                p = q;
                assert(v@.map_values(|f: Vec<u8>| f@) =~= before.map_values(|f: Vec<u8>| f@).push(f@));
            },
            None => {
                proof {
                    lemma_dec_fields_stops(b@, at as int, (k + 1) as nat, n as nat);
                }
                return None;
            },
        }
        k = k + 1;
    }
    Some((v, p))
}

proof fn lemma_dec_fields_len(b: Seq<u8>, at: int, n: nat)
    ensures
        dec_fields(b, at, n) matches Some((fs, p)) ==> fs.len() == n,
    decreases n,
{
    if n > 0 {
        lemma_dec_fields_len(b, at, (n - 1) as nat);
    }
}

proof fn lemma_dec_fields_stops(b: Seq<u8>, at: int, k: nat, n: nat)
    requires
        k <= n,
        dec_fields(b, at, k) is None,
    ensures
        dec_fields(b, at, n) is None,
    decreases n - k,
{
    if k < n {
        lemma_dec_fields_stops(b, at, k + 1, n);
    }
}

/// Reads a transaction of the layout at `at`.
pub fn get_transaction(b: &Vec<u8>, at: usize, layout: LogLayout) -> (r: Option<(TransactionRecord, usize)>)
    ensures
        match r {
            Some((x, q)) => dec_tx(b@, at as int, layout) == Some((x@, q as int)),
            None => dec_tx(b@, at as int, layout) is None,
        },
{
    let (has_to, p) = match get_bool(b, at) {
        Some(x) => x,
        None => return None,
    };
    let count: usize = match layout {
        LogLayout::V1 => 7,
        LogLayout::V2Transaction => 8,
    };
    assert(count as nat == tx_field_count(layout));
    proof {
        lemma_dec_fields_len(b@, p as int, count as nat);
    }
    let (mut fs, q) = match get_fields(b, p, count) {
        Some(x) => x,
        None => return None,
    };
    let ghost v0 = fs@;
    let input = if count == 8 { fs.pop().unwrap() } else { Vec::new() };
    let gas_price = fs.pop().unwrap();
    let gas_used = fs.pop().unwrap();
    let value = fs.pop().unwrap();
    let to = fs.pop().unwrap();
    let from = fs.pop().unwrap();
    let index = fs.pop().unwrap();
    let hash = fs.pop().unwrap();
    let t = TransactionRecord {
        hash,
        index,
        from,
        to: if has_to { Some(to) } else { None },
        value,
        gas_used,
        gas_price,
        input,
    };
    proof {
        let fsv = v0.map_values(|f: Vec<u8>| f@);
        assert(fsv.len() == count);
        assert(hash@ == fsv[0]);
        assert(index@ == fsv[1]);
        assert(from@ == fsv[2]);
        assert(to@ == fsv[3]);
        assert(value@ == fsv[4]);
        assert(gas_used@ == fsv[5]);
        assert(gas_price@ == fsv[6]);
        assert(t@ == tx_from_fields(has_to, fsv, layout));
    }
    Some((t, q))
}

} // verus!
