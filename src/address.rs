use vstd::prelude::*;

verus! {

/// Number of row slots in one fragment.
pub const FRAGMENT_SIZE: u64 = 0x1_0000_0000;

/// A fragment id that is never allocated to real data.
pub const TOMBSTONE_FRAG: u32 = 0xffff_ffff;

/// A row address that is never allocated to real data.
pub const TOMBSTONE_ROW: u64 = 0xffff_ffff_ffff_ffff;

/// The raw 64-bit value that packs `fragment` into the high half and `offset`
/// into the low half.
pub open spec fn pack(fragment: nat, offset: nat) -> nat {
    fragment * 0x1_0000_0000 + offset
}

/// The fragment id held in the high half of a raw value.
pub open spec fn fragment_of(raw: nat) -> nat {
    raw / 0x1_0000_0000
}

/// The row offset held in the low half of a raw value.
pub open spec fn offset_of(raw: nat) -> nat {
    raw % 0x1_0000_0000
}

/// A packed 64-bit identity of a row: fragment id in the high 32 bits, row
/// offset within the fragment in the low 32 bits.
#[derive(Clone, Copy, PartialEq, Eq, Structural, PartialOrd, Ord, Hash)]
pub struct RowAddress(pub u64);

impl RowAddress {
    pub open spec fn raw(self) -> nat {
        self.0 as nat
    }

    pub fn new_from_u64(row_addr: u64) -> (r: Self)
        ensures
            r.0 == row_addr,
    {
        RowAddress(row_addr)
    }

    pub fn new_from_parts(fragment_id: u32, row_offset: u32) -> (r: Self)
        ensures
            r.raw() == pack(fragment_id as nat, row_offset as nat),
    {
        let raw: u64 = ((fragment_id as u64) << 32u64) | row_offset as u64;
        proof {
            lemma_pack_bits(fragment_id, row_offset);
        }
        RowAddress(raw)
    }

    pub fn first_row(fragment_id: u32) -> (r: Self)
        ensures
            r.raw() == pack(fragment_id as nat, 0),
    {
        Self::new_from_parts(fragment_id, 0)
    }

    /// The half-open range of raw values of every row slot of a fragment. The
    /// fragment after it must exist, so the tombstone fragment has no range.
    pub fn address_range(fragment_id: u32) -> (r: core::ops::Range<u64>)
        requires
            fragment_id < TOMBSTONE_FRAG,
        ensures
            r.start as nat == pack(fragment_id as nat, 0),
            r.end as nat == pack(fragment_id as nat + 1, 0),
            forall|raw: u64| #[trigger]
                in_address_range(fragment_id as nat, raw as nat) <==> r.start <= raw < r.end,
    {
        let start = u64::from(Self::first_row(fragment_id));
        let end = u64::from(Self::first_row(fragment_id + 1));
        core::ops::Range { start, end }
    }

    pub fn fragment_id(&self) -> (r: u32)
        ensures
            r as nat == fragment_of(self.raw()),
    {
        let r: u32 = (self.0 >> 32u64) as u32;
        proof {
            lemma_high_bits(self.0);
        }
        r
    }

    pub fn row_offset(&self) -> (r: u32)
        ensures
            r as nat == offset_of(self.raw()),
    {
        let r: u32 = self.0 as u32;
        proof {
            lemma_low_bits(self.0);
        }
        r
    }
}

proof fn lemma_pack_bits(f: u32, o: u32)
    ensures
        (((f as u64) << 32u64) | o as u64) as nat == pack(f as nat, o as nat),
{
    let hi = f as u64;
    let lo = o as u64;
    assert((hi << 32u64) | lo == hi * 0x1_0000_0000u64 + lo && hi * 0x1_0000_0000u64 + lo
        <= 0xffff_ffff_ffff_ffffu64) by (bit_vector)
        requires
            hi < 0x1_0000_0000u64,
            lo < 0x1_0000_0000u64,
    ;
}

proof fn lemma_high_bits(x: u64)
    ensures
        ((x >> 32u64) as u32) as nat == fragment_of(x as nat),
{
    assert((x >> 32u64) as u32 == x / 0x1_0000_0000u64) by (bit_vector);
}

proof fn lemma_low_bits(x: u64)
    ensures
        (x as u32) as nat == offset_of(x as nat),
{
    assert(x as u32 == x % 0x1_0000_0000u64) by (bit_vector);
}

/// Decimal digits of `n`, most significant first, with no leading zeros.
pub open spec fn decimal(n: nat) -> Seq<char>
    decreases n,
{
    if n < 10 {
        seq![digit_char(n)]
    } else {
        decimal(n / 10).push(digit_char(n % 10))
    }
}

pub open spec fn digit_char(d: nat) -> char {
    ((d + 48) as u8) as char
}

/// Textual form `(fragment, offset)` of a raw value.
pub open spec fn address_text(raw: nat) -> Seq<char> {
    seq!['('] + decimal(fragment_of(raw)) + seq![',', ' '] + decimal(offset_of(raw)) + seq![')']
}

/// Relies on `u32::to_string` (std's `Display` for integers): decimal digits
/// without sign or leading zeros.
#[verifier::external_body]
fn decimal_string(n: u32) -> (r: String)
    ensures
        r@ == decimal(n as nat),
{
    n.to_string()
}

impl RowAddress {
    /// Renders the address as `(fragment, offset)`, for diagnostics.
    pub fn to_text(&self) -> (r: String)
        ensures
            r@ == address_text(self.raw()),
    {
        let f = decimal_string(self.fragment_id());
        let o = decimal_string(self.row_offset());
        let mut out = String::from_str("(");
        out.append(f.as_str());
        out.append(", ");
        out.append(o.as_str());
        out.append(")");
        proof {
            reveal_strlit("(");
            reveal_strlit(", ");
            reveal_strlit(")");
            assert(out@ =~= address_text(self.raw()));
        }
        out
    }
}

/// Unpacking a packed pair gives back both components.
pub proof fn lemma_round_trip(fragment_id: u32, row_offset: u32)
    ensures
        fragment_of(pack(fragment_id as nat, row_offset as nat)) == fragment_id as nat,
        offset_of(pack(fragment_id as nat, row_offset as nat)) == row_offset as nat,
{
    let f = fragment_id as int;
    let o = row_offset as int;
    vstd::arithmetic::div_mod::lemma_fundamental_div_mod_converse(
        f * 0x1_0000_0000 + o,
        0x1_0000_0000,
        f,
        o,
    );
}

/// Packing the components of a raw value gives back that value.
pub proof fn lemma_unpack_round_trip(raw: u64)
    ensures
        pack(fragment_of(raw as nat), offset_of(raw as nat)) == raw as nat,
        fragment_of(raw as nat) < 0x1_0000_0000,
{
    vstd::arithmetic::div_mod::lemma_fundamental_div_mod(raw as int, 0x1_0000_0000);
    vstd::arithmetic::div_mod::lemma_div_pos_is_pos(raw as int, 0x1_0000_0000);
    vstd::arithmetic::div_mod::lemma_div_is_ordered(raw as int, 0xffff_ffff_ffff_ffff, 0x1_0000_0000);
}

/// Whether `raw` lies in the half-open address range of fragment `f`.
pub open spec fn in_address_range(f: nat, raw: nat) -> bool {
    pack(f, 0) <= raw < pack(f + 1, 0)
}

/// The address range of a fragment holds exactly one fragment's worth of
/// values, each of which belongs to that fragment, and it shares no value with
/// the range of the next fragment.
pub proof fn lemma_address_range(fragment_id: u32)
    requires
        fragment_id < TOMBSTONE_FRAG,
    ensures
        pack(fragment_id as nat + 1, 0) - pack(fragment_id as nat, 0) == FRAGMENT_SIZE,
        forall|raw: nat|
            #[trigger] in_address_range(fragment_id as nat, raw) ==> fragment_of(raw)
                == fragment_id as nat,
        forall|raw: nat|
            #[trigger] in_address_range(fragment_id as nat, raw) ==> !in_address_range(
                fragment_id as nat + 1,
                raw,
            ),
{
    let f = fragment_id as int;
    assert forall|raw: nat| #[trigger] in_address_range(fragment_id as nat, raw) implies fragment_of(
        raw,
    ) == fragment_id as nat by {
        vstd::arithmetic::div_mod::lemma_fundamental_div_mod_converse(
            raw as int,
            0x1_0000_0000,
            f,
            raw - f * 0x1_0000_0000,
        );
    }
}

/// No valid fragment id and offset pack to the tombstone address: only the
/// tombstone fragment reaches it.
pub proof fn lemma_tombstone_unreachable(fragment_id: u32, row_offset: u32)
    requires
        fragment_id != TOMBSTONE_FRAG,
    ensures
        pack(fragment_id as nat, row_offset as nat) != TOMBSTONE_ROW as nat,
{
}

impl From<RowAddress> for u64 {
    fn from(row_id: RowAddress) -> (r: u64) {
        row_id.0
    }
}

impl vstd::std_specs::convert::FromSpecImpl<RowAddress> for u64 {
    open spec fn obeys_from_spec() -> bool {
        true
    }

    open spec fn from_spec(row_id: RowAddress) -> u64 {
        row_id.0
    }
}

impl From<u64> for RowAddress {
    fn from(row_id: u64) -> (r: RowAddress) {
        RowAddress(row_id)
    }
}

impl vstd::std_specs::convert::FromSpecImpl<u64> for RowAddress {
    open spec fn obeys_from_spec() -> bool {
        true
    }

    open spec fn from_spec(row_id: u64) -> RowAddress {
        RowAddress(row_id)
    }
}

} // verus!
