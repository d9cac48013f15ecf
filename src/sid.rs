//! Security identifiers: structural parsing, canonical text, byte equality.
use vstd::prelude::*;
use vstd::string::StringExecFns;

verus! {

/// Decimal digit `d` (0..=9) as a character.
pub open spec fn digit_char(d: nat) -> char {
    if d == 0 { '0' }
    else if d == 1 { '1' }
    else if d == 2 { '2' }
    else if d == 3 { '3' }
    else if d == 4 { '4' }
    else if d == 5 { '5' }
    else if d == 6 { '6' }
    else if d == 7 { '7' }
    else if d == 8 { '8' }
    else { '9' }
}

/// Decimal rendering of `n`, without leading zeros.
pub open spec fn decimal(n: nat) -> Seq<char>
    decreases n,
{
    if n < 10 {
        seq![digit_char(n)]
    } else {
        decimal(n / 10).push(digit_char(n % 10))
    }
}

/// Number of sub-authorities declared by the header (byte 1).
pub open spec fn sub_authority_count(b: Seq<u8>) -> nat {
    b[1] as nat
}

/// Length that the header declares: eight header bytes, four per sub-authority.
pub open spec fn declared_len(count: nat) -> nat {
    8 + 4 * count
}

/// A buffer holds a whole header and every sub-authority that it declares.
pub open spec fn sid_well_formed(b: Seq<u8>) -> bool {
    b.len() >= 8 && b.len() >= declared_len(sub_authority_count(b))
}

/// The 48-bit big-endian identifier authority held in bytes 2 to 7.
pub open spec fn authority_of(b: Seq<u8>) -> nat {
    b[2] as nat * 0x100_0000_0000 + b[3] as nat * 0x1_0000_0000 + b[4] as nat * 0x100_0000
        + b[5] as nat * 0x1_0000 + b[6] as nat * 0x100 + b[7] as nat
}

/// The little-endian 32-bit value of the four bytes at `off`.
pub open spec fn le32_at(b: Seq<u8>, off: int) -> nat {
    b[off] as nat + b[off + 1] as nat * 0x100 + b[off + 2] as nat * 0x1_0000 + b[off + 3] as nat
        * 0x100_0000
}

/// Sub-authority number `i` (counting from zero).
pub open spec fn sub_authority_of(b: Seq<u8>, i: int) -> nat {
    le32_at(b, 8 + 4 * i)
}

/// The text `-a1-a2-...-ak` of the first `k` sub-authorities.
pub open spec fn sub_authorities_text(b: Seq<u8>, k: nat) -> Seq<char>
    decreases k,
{
    if k == 0 {
        seq![]
    } else {
        sub_authorities_text(b, (k - 1) as nat) + seq!['-'] + decimal(
            sub_authority_of(b, k - 1),
        )
    }
}

/// Canonical text `S-{revision}-{authority}-{sub_1}-...-{sub_n}`, or empty
/// when the buffer is too short for what its header declares.
pub open spec fn sid_text(b: Seq<u8>) -> Seq<char> {
    if sid_well_formed(b) {
        seq!['S', '-'] + decimal(b[0] as nat) + seq!['-'] + decimal(authority_of(b))
            + sub_authorities_text(b, sub_authority_count(b))
    } else {
        seq![]
    }
}

/// A security identifier decoded into its parts.
#[derive(Debug, Clone)]
pub struct ParsedSid {
    pub revision: u8,
    pub identifier_authority: u64,
    pub sub_authorities: Vec<u32>,
}

/// Byte length of an identifier whose header declares `count` sub-authorities.
pub fn sid_byte_len(count: u8) -> (r: usize)
    ensures
        r == declared_len(count as nat),
{
    8 + 4 * (count as usize)
}

/// Decodes the header and sub-authorities; `None` when the buffer is shorter
/// than the header, or than what the header declares.
pub fn parse_sid(raw: &[u8]) -> (r: Option<ParsedSid>)
    ensures
        r is None <==> !sid_well_formed(raw@),
        r matches Some(p) ==> {
            &&& p.revision == raw@[0]
            &&& p.identifier_authority == authority_of(raw@)
            &&& p.sub_authorities@.len() == sub_authority_count(raw@)
            &&& forall|i: int|
                0 <= i < p.sub_authorities@.len() ==> p.sub_authorities@[i] == sub_authority_of(
                    raw@,
                    i,
                )
        },
{
    if raw.len() < 8 {
        return None;
    }
    let count = raw[1] as usize;
    if raw.len() < sid_byte_len(raw[1]) {
        return None;
    }
    let authority: u64 = raw[2] as u64 * 0x100_0000_0000 + raw[3] as u64 * 0x1_0000_0000
        + raw[4] as u64 * 0x100_0000 + raw[5] as u64 * 0x1_0000 + raw[6] as u64 * 0x100
        + raw[7] as u64;
    let mut subs: Vec<u32> = Vec::new();
    let mut i: usize = 0;
    while i < count
        invariant
            i <= count,
            count == sub_authority_count(raw@),
            raw@.len() >= declared_len(count as nat),
            subs@.len() == i,
            forall|j: int| 0 <= j < i ==> subs@[j] == sub_authority_of(raw@, j),
        decreases count - i,
    {
        subs.push(read_le32(raw, 8 + 4 * i));
        i = i + 1;
    }
    Some(ParsedSid { revision: raw[0], identifier_authority: authority, sub_authorities: subs })
}

/// The little-endian 32-bit value at `off`.
fn read_le32(b: &[u8], off: usize) -> (r: u32)
    requires
        off + 4 <= b@.len(),
    ensures
        r == le32_at(b@, off as int),
{
    b[off] as u32 + b[off + 1] as u32 * 0x100 + b[off + 2] as u32 * 0x1_0000 + b[off + 3] as u32
        * 0x100_0000
}

/// Character `digit_char(d)` as a one-character string.
fn digit_str(d: u64) -> (r: &'static str)
    requires
        d < 10,
    ensures
        r@ == seq![digit_char(d as nat)],
{
    if d == 0 {
        proof { reveal_strlit("0"); }
        "0"
    } else if d == 1 {
        proof { reveal_strlit("1"); }
        "1"
    } else if d == 2 {
        proof { reveal_strlit("2"); }
        "2"
    } else if d == 3 {
        proof { reveal_strlit("3"); }
        "3"
    } else if d == 4 {
        proof { reveal_strlit("4"); }
        "4"
    } else if d == 5 {
        proof { reveal_strlit("5"); }
        "5"
    } else if d == 6 {
        proof { reveal_strlit("6"); }
        "6"
    } else if d == 7 {
        proof { reveal_strlit("7"); }
        "7"
    } else if d == 8 {
        proof { reveal_strlit("8"); }
        "8"
    } else {
        proof { reveal_strlit("9"); }
        "9"
    }
}

/// Appends the decimal rendering of `n` to `s`.
pub fn push_decimal(s: &mut String, n: u64)
    ensures
        final(s)@ == old(s)@ + decimal(n as nat),
    decreases n,
{
    if n >= 10 {
        push_decimal(s, n / 10);
    }
    s.append(digit_str(n % 10));
    proof {
        assert(old(s)@ + decimal(n as nat) =~= s@);
    }
}

/// Canonical text of a security identifier; empty when the buffer is
/// malformed, so that display never blocks enumeration.
pub fn sid_to_string(raw: &[u8]) -> (r: String)
    ensures
        r@ == sid_text(raw@),
        !sid_well_formed(raw@) ==> r@.len() == 0,
{
    match parse_sid(raw) {
        None => String::new(),
        Some(p) => {
            let mut s = String::from_str("S-");
            proof { reveal_strlit("S-"); }
            push_decimal(&mut s, p.revision as u64);
            s.append("-");
            proof { reveal_strlit("-"); }
            push_decimal(&mut s, p.identifier_authority);
            let n = p.sub_authorities.len();
            let mut i: usize = 0;
            while i < n
                invariant
                    i <= n,
                    n == sub_authority_count(raw@),
                    sid_well_formed(raw@),
                    p.sub_authorities@.len() == n,
                    forall|j: int| 0 <= j < n ==> p.sub_authorities@[j] == sub_authority_of(raw@, j),
                    s@ == seq!['S', '-'] + decimal(raw@[0] as nat) + seq!['-'] + decimal(
                        authority_of(raw@),
                    ) + sub_authorities_text(raw@, i as nat),
                decreases n - i,
            {
                s.append("-");
                proof { reveal_strlit("-"); }
                push_decimal(&mut s, p.sub_authorities[i] as u64);
                proof {
                    assert(sub_authorities_text(raw@, (i + 1) as nat) == sub_authorities_text(raw@, i as nat) + seq!['-'] + decimal(sub_authority_of(raw@, i as int)));
                }
                i = i + 1;
            }
            s
        }
    }
}

/// Byte-for-byte equality of two identifiers: the one identity test.
pub fn compare_sids(a: &[u8], b: &[u8]) -> (r: bool)
    ensures
        r == (a@ == b@),
{
    if a.len() != b.len() {
        return false;
    }
    let mut i: usize = 0;
    while i < a.len()
        invariant
            a@.len() == b@.len(),
            i <= a@.len(),
            forall|j: int| 0 <= j < i ==> a@[j] == b@[j],
        decreases a@.len() - i,
    {
        if a[i] != b[i] {
            return false;
        }
        i = i + 1;
    }
    assert(a@ =~= b@);
    true
}

} // verus!
