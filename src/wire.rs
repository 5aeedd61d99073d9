//! Protocol-buffer wire format: base-128 varints and tagged fields.
use vstd::prelude::*;
use vstd::slice::slice_to_vec;

verus! {

/// Value of the little-endian base-128 digits in `s` (the high bit of each
/// byte is the continuation flag and is ignored here).
pub open spec fn varint_value(s: Seq<u8>) -> nat
    decreases s.len(),
{
    if s.len() == 0 {
        0
    } else {
        (s[0] % 128) as nat + 128 * varint_value(s.drop_first())
    }
}

/// Number of bytes of the varint that starts `s`: up to and including the
/// first byte without the continuation flag.
pub open spec fn varint_len(s: Seq<u8>) -> Option<nat>
    decreases s.len(),
{
    if s.len() == 0 {
        None
    } else if s[0] < 128 {
        Some(1)
    } else {
        match varint_len(s.drop_first()) {
            Some(n) => Some(n + 1),
            None => None,
        }
    }
}

/// The varint at the start of `s` and its length, if it is complete and
/// its value fits in 64 bits.
pub open spec fn parse_varint(s: Seq<u8>) -> Option<(u64, nat)> {
    match varint_len(s) {
        Some(n) => if varint_value(s.take(n as int)) <= u64::MAX {
            Some((varint_value(s.take(n as int)) as u64, n))
        } else {
            None
        },
        None => None,
    }
}

/// The shortest varint encoding of `n`.
pub open spec fn varint_bytes(n: nat) -> Seq<u8>
    decreases n,
{
    if n < 128 {
        seq![n as u8]
    } else {
        seq![(n % 128 + 128) as u8] + varint_bytes(n / 128)
    }
}

proof fn lemma_varint_len_scan(s: Seq<u8>, m: int)
    requires
        0 <= m < s.len(),
        forall|i: int| 0 <= i < m ==> s[i] >= 128,
        s[m] < 128,
    ensures
        varint_len(s) == Some((m + 1) as nat),
    decreases m,
{
    if m > 0 {
        lemma_varint_len_scan(s.drop_first(), m - 1);
    }
}

proof fn lemma_varint_len_none(s: Seq<u8>)
    requires
        forall|i: int| 0 <= i < s.len() ==> s[i] >= 128,
    ensures
        varint_len(s) is None,
    decreases s.len(),
{
    if s.len() > 0 {
        lemma_varint_len_none(s.drop_first());
    }
}

proof fn lemma_varint_value_step(s: Seq<u8>, k: int, e: int)
    requires
        0 <= k < e <= s.len(),
    ensures
        varint_value(s.subrange(k, e)) == (s[k] % 128) as nat + 128 * varint_value(
            s.subrange(k + 1, e),
        ),
{
    assert(s.subrange(k, e).drop_first() =~= s.subrange(k + 1, e));
}

proof fn lemma_varint_value_mono(s: Seq<u8>, a: int, c: int, e: int)
    requires
        0 <= a <= c <= e <= s.len(),
    ensures
        varint_value(s.subrange(a, e)) >= varint_value(s.subrange(c, e)),
    decreases c - a,
{
    if a < c {
        lemma_varint_value_step(s, a, e);
        lemma_varint_value_mono(s, a + 1, c, e);
    }
}

/// Reads the varint that starts at `pos`; gives its value and the position
/// after it.
pub fn read_varint(b: &[u8], pos: usize) -> (r: Option<(u64, usize)>)
    requires
        pos <= b@.len(),
    ensures
        match parse_varint(b@.subrange(pos as int, b@.len() as int)) {
            Some((v, n)) => r matches Some((x, e)) && x == v && e == pos + n && e <= b@.len(),
            None => r is None,
        },
{
    let ghost s = b@.subrange(pos as int, b@.len() as int);
    let mut j: usize = pos;
    while j < b.len() && b[j] >= 128
        invariant
            pos <= j <= b@.len(),
            forall|i: int| pos <= i < j ==> b@[i] >= 128,
        decreases b@.len() - j,
    {
        j = j + 1;
    }
    if j == b.len() {
        proof {
            lemma_varint_len_none(s);
        }
        return None;
    }
    proof {
        lemma_varint_len_scan(s, j - pos);
        lemma_varint_len_bound(s);
        assert(s.take((j + 1 - pos) as int) =~= b@.subrange(pos as int, j + 1));
    }
    let mut v: u64 = (b[j] % 128) as u64;
    let mut k: usize = j;
    proof {
        lemma_varint_value_step(b@, j as int, j + 1);
        assert(b@.subrange(j + 1, j + 1) =~= Seq::<u8>::empty());
    }
    while k > pos
        invariant
            pos <= k <= j < b@.len(),
            s == b@.subrange(pos as int, b@.len() as int),
            varint_len(s) == Some((j + 1 - pos) as nat),
            s.take((j + 1 - pos) as int) == b@.subrange(pos as int, j + 1),
            v as nat == varint_value(b@.subrange(k as int, j + 1)),
        decreases k,
    {
        let d: u64 = (b[k - 1] % 128) as u64;
        proof {
            lemma_varint_value_step(b@, k - 1, j + 1);
        }
        if v > (u64::MAX - d) / 128 {
            proof {
                lemma_varint_value_mono(b@, pos as int, k - 1, j + 1);
                assert(d + 128 * v > u64::MAX) by (nonlinear_arith)
                    requires
                        v > (u64::MAX - d) / 128,
                        d < 128,
                ;
            }
            return None;
        }
        v = d + 128 * v;
        k = k - 1;
    }
    Some((v, j + 1))
}

/// Appends the shortest varint encoding of `n` to `out`.
pub fn write_varint(out: &mut Vec<u8>, n: u64)
    ensures
        final(out)@ == old(out)@ + varint_bytes(n as nat),
{
    let mut v: u64 = n;
    while v >= 128
        invariant
            old(out)@ + varint_bytes(n as nat) == out@ + varint_bytes(v as nat),
        decreases v,
    {
        let ghost pre = out@;
        out.push((v % 128 + 128) as u8);
        assert(pre + varint_bytes(v as nat) =~= out@ + varint_bytes((v / 128) as nat));
        v = v / 128;
    }
    let ghost pre = out@;
    out.push(v as u8);
    assert(pre + varint_bytes(v as nat) =~= out@);
}

/// What a field carries, as the wire format gives it.
pub enum WireValue {
    Varint(u64),
    Bytes(Seq<u8>),
    Fixed(Seq<u8>),
}

/// A field read from a message: its field number and its payload.
pub enum FieldValue {
    Varint(u64),
    Bytes(Vec<u8>),
    Fixed(Vec<u8>),
}

pub struct Field {
    pub number: u64,
    pub value: FieldValue,
}

impl View for FieldValue {
    type V = WireValue;

    open spec fn view(&self) -> WireValue {
        match self {
            FieldValue::Varint(v) => WireValue::Varint(*v),
            FieldValue::Bytes(b) => WireValue::Bytes(b@),
            FieldValue::Fixed(b) => WireValue::Fixed(b@),
        }
    }
}

impl View for Field {
    type V = (u64, WireValue);

    open spec fn view(&self) -> (u64, WireValue) {
        (self.number, self.value@)
    }
}

pub open spec fn fields_view(fs: Seq<Field>) -> Seq<(u64, WireValue)> {
    fs.map_values(|f: Field| f@)
}

/// `s` without its first `n` bytes.
pub open spec fn after(s: Seq<u8>, n: nat) -> Seq<u8> {
    s.subrange(n as int, s.len() as int)
}

/// Width of the payload of a fixed-width wire type (1: 64 bits, 5: 32 bits).
pub open spec fn fixed_width(wire_type: u64) -> nat {
    if wire_type == 1 {
        8
    } else {
        4
    }
}

/// The field at the start of `s`: its number, its value and how many bytes
/// it takes. Field number 0 and the group wire types 3 and 4 are refused.
pub open spec fn parse_field(s: Seq<u8>) -> Option<(u64, WireValue, nat)> {
    match parse_varint(s) {
        None => None,
        Some((key, n)) => {
            let rest = after(s, n);
            let number = key / 8;
            let wire_type = key % 8;
            if number == 0 {
                None
            } else if wire_type == 0 {
                match parse_varint(rest) {
                    Some((v, m)) => Some((number, WireValue::Varint(v), n + m)),
                    None => None,
                }
            } else if wire_type == 2 {
                match parse_varint(rest) {
                    Some((len, m)) => if m + len <= rest.len() {
                        Some(
                            (
                                number,
                                WireValue::Bytes(rest.subrange(m as int, m + len as int)),
                                (n + m + len) as nat,
                            ),
                        )
                    } else {
                        None
                    },
                    None => None,
                }
            } else if wire_type == 1 || wire_type == 5 {
                let w = fixed_width(wire_type);
                if w <= rest.len() {
                    Some((number, WireValue::Fixed(rest.subrange(0, w as int)), n + w))
                } else {
                    None
                }
            } else {
                None
            }
        },
    }
}

/// All fields of a message, in the order they stand; `None` when the bytes
/// are not a well-formed sequence of fields.
pub open spec fn parse_fields(s: Seq<u8>) -> Option<Seq<(u64, WireValue)>>
    decreases s.len(),
{
    if s.len() == 0 {
        Some(Seq::empty())
    } else {
        match parse_field(s) {
            Some((f, v, n)) => if 0 < n <= s.len() {
                match parse_fields(after(s, n)) {
                    Some(rest) => Some(seq![(f, v)] + rest),
                    None => None,
                }
            } else {
                None
            },
            None => None,
        }
    }
}

proof fn lemma_varint_len_bound(s: Seq<u8>)
    ensures
        varint_len(s) matches Some(n) ==> 0 < n <= s.len(),
    decreases s.len(),
{
    if s.len() > 0 {
        lemma_varint_len_bound(s.drop_first());
    }
}

proof fn lemma_after_after(s: Seq<u8>, n: nat, m: nat)
    requires
        n + m <= s.len(),
    ensures
        after(after(s, n), m) == after(s, n + m),
{
    assert(after(after(s, n), m) =~= after(s, n + m));
}

/// Reads the field that starts at `pos`; gives it and the position after it.
pub fn read_field(b: &[u8], pos: usize) -> (r: Option<(Field, usize)>)
    requires
        pos <= b@.len(),
    ensures
        match parse_field(after(b@, pos as nat)) {
            Some((f, v, n)) => r matches Some((fld, end)) && fld@ == (f, v) && end == pos + n
                && pos < end <= b@.len(),
            None => r is None,
        },
{
    let ghost s = after(b@, pos as nat);
    let rk = read_varint(b, pos);
    let (key, p) = match rk {
        Some(x) => x,
        None => return None,
    };
    proof {
        lemma_varint_len_bound(s);
        lemma_after_after(b@, pos as nat, (p - pos) as nat);
    }
    let number = key / 8;
    let wire_type = key % 8;
    if number == 0 {
        return None;
    }
    if wire_type == 0 {
        match read_varint(b, p) {
            Some((v, q)) => Some((Field { number, value: FieldValue::Varint(v) }, q)),
            None => None,
        }
    } else if wire_type == 2 {
        match read_varint(b, p) {
            Some((len, q)) => {
                proof {
                    lemma_varint_len_bound(after(b@, p as nat));
                }
                if len > (b.len() - q) as u64 {
                    return None;
                }
                let end = q + len as usize;
                let data = slice_to_vec(&b[q..end]);
                proof {
                    assert(data@ =~= after(s, (p - pos) as nat).subrange(
                        (q - p) as int,
                        (q - p) + len,
                    ));
                }
                Some((Field { number, value: FieldValue::Bytes(data) }, end))
            },
            None => None,
        }
    } else if wire_type == 1 || wire_type == 5 {
        let w: usize = if wire_type == 1 {
            8
        } else {
            4
        };
        if w > b.len() - p {
            return None;
        }
        let data = slice_to_vec(&b[p..p + w]);
        proof {
            assert(data@ =~= after(s, (p - pos) as nat).subrange(0, w as int));
        }
        Some((Field { number, value: FieldValue::Fixed(data) }, p + w))
    } else {
        None
    }
}

/// Reads all fields of a message, in order.
pub fn read_fields(b: &[u8]) -> (r: Option<Vec<Field>>)
    ensures
        match parse_fields(b@) {
            Some(fs) => r matches Some(v) && fields_view(v@) == fs,
            None => r is None,
        },
{
    let mut acc: Vec<Field> = Vec::new();
    let mut pos: usize = 0;
    assert(after(b@, 0) =~= b@);
    while pos < b.len()
        invariant
            pos <= b@.len(),
            parse_fields(b@) == match parse_fields(after(b@, pos as nat)) {
                Some(rest) => Some(fields_view(acc@) + rest),
                None => None,
            },
        decreases b@.len() - pos,
    {
        let ghost s = after(b@, pos as nat);
        match read_field(b, pos) {
            Some((fld, end)) => {
                proof {
                    lemma_after_after(b@, pos as nat, (end - pos) as nat);
                    assert(fields_view(acc@.push(fld)) =~= fields_view(acc@) + seq![fld@]);
                    assert(fields_view(acc@) + seq![fld@] + parse_fields(after(b@, end as nat))->0
                        =~= fields_view(acc@) + (seq![fld@] + parse_fields(
                        after(b@, end as nat),
                    )->0));
                }
                acc.push(fld);
                pos = end;
            },
            None => {
                return None;
            },
        }
    }
    assert(after(b@, pos as nat) =~= Seq::<u8>::empty());
    assert(fields_view(acc@) + Seq::<(u64, WireValue)>::empty() =~= fields_view(acc@));
    Some(acc)
}

proof fn lemma_varint_bytes_len(n: nat, rest: Seq<u8>)
    ensures
        varint_bytes(n).len() >= 1,
        varint_len(varint_bytes(n) + rest) == Some(varint_bytes(n).len()),
        varint_value(varint_bytes(n)) == n,
    decreases n,
{
    let s = varint_bytes(n) + rest;
    if n < 128 {
        let v = varint_bytes(n);
        assert(v.drop_first() =~= Seq::<u8>::empty());
        assert(v[0] == n as u8);
        assert(varint_value(v) == (v[0] % 128) as nat + 128 * varint_value(v.drop_first()));
    } else {
        lemma_varint_bytes_len(n / 128, rest);
        assert(s.drop_first() =~= varint_bytes(n / 128) + rest);
        assert(varint_bytes(n).drop_first() =~= varint_bytes(n / 128));
        let v = varint_bytes(n);
        assert(v[0] == (n % 128 + 128) as u8);
        assert(((n % 128 + 128) as u8) % 128 == n % 128);
        assert(varint_value(v) == (v[0] % 128) as nat + 128 * varint_value(v.drop_first()));
        assert(n == n % 128 + 128 * (n / 128)) by (nonlinear_arith);
    }
}

/// Reading back the encoding of `n` gives `n` and the encoding's length,
/// whatever follows it.
pub proof fn lemma_varint_round_trip(n: nat, rest: Seq<u8>)
    requires
        n <= u64::MAX,
    ensures
        parse_varint(varint_bytes(n) + rest) == Some((n as u64, varint_bytes(n).len())),
{
    lemma_varint_bytes_len(n, rest);
    let s = varint_bytes(n) + rest;
    assert(s.take(varint_bytes(n).len() as int) =~= varint_bytes(n));
}

} // verus!
