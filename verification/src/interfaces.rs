//! The interface-table collector.
//!
//! A collection walks a fixed, ordered list of standard interface-table
//! column OIDs. Each returned instance OID is the column OID plus a trailing
//! table-row index; the collector extracts that index and joins the columns
//! into one [`Interface`] record per row of the index column. The walks
//! themselves are socket work and happen outside the library; their outcomes
//! are handed in whole as a [`ColumnWalks`] value and everything from there —
//! index extraction, per-column decoding rules, the join, and the
//! all-or-nothing failure contract — is decided here.

use vstd::prelude::*;

use crate::oid_strings::{
    all_digits, format_oid, format_oid_spec, last_segment, lemma_parse_formatted_oid,
    parse_u32_spec,
};
use crate::snmp::{SnmpError, SnmpValueOwned, WalkRows, copy_bytes};

verus! {

/// Errors of a collection run.
#[derive(Debug)]
pub enum InterfaceCollectionError {
    /// A transport error outside any particular column walk.
    SnmpProcessing(SnmpError),
    /// The index column walk returned zero rows: the device has no
    /// enumerable interfaces. A distinct, expected outcome, not an empty
    /// success.
    NoInterfaces,
    /// An instance OID could not be reduced to a numeric trailing row index.
    InvalidData(String),
    /// An OID could not be parsed at all.
    OidParseError(String),
    /// A column walk failed at the transport level; names the column.
    WalkFailed { oid: String, source: SnmpError },
}

/// One network interface, one row of the interface table. Fields other than
/// the index are filled only where the matching column had a decodable row.
#[derive(Debug, Clone)]
pub struct Interface {
    pub index: u32,
    pub description: String,
    pub interface_type: u32,
    pub mtu: Option<i64>,
    pub speed: Option<u32>,
    pub physical_address: Option<Vec<u8>>,
    pub admin_status: u32,
    pub oper_status: u32,
    pub last_change: Option<u32>,
    pub in_octets: Option<u64>,
    pub out_octets: Option<u64>,
}

impl Interface {
    /// A record for row `index` with every other field unset.
    pub fn new(index: u32) -> (r: Self)
        ensures
            r.index == index,
            r.description@.len() == 0,
            r.interface_type == 0,
            r.mtu is None,
            r.speed is None,
            r.physical_address is None,
            r.admin_status == 0,
            r.oper_status == 0,
            r.last_change is None,
            r.in_octets is None,
            r.out_octets is None,
    {
        Interface {
            index,
            description: String::new(),
            interface_type: 0,
            mtu: None,
            speed: None,
            physical_address: None,
            admin_status: 0,
            oper_status: 0,
            last_change: None,
            in_octets: None,
            out_octets: None,
        }
    }
}

/// Lower-case hexadecimal digit for a value below sixteen.
pub open spec fn hex_char(d: nat) -> char {
    if d == 0 {
        '0'
    } else if d == 1 {
        '1'
    } else if d == 2 {
        '2'
    } else if d == 3 {
        '3'
    } else if d == 4 {
        '4'
    } else if d == 5 {
        '5'
    } else if d == 6 {
        '6'
    } else if d == 7 {
        '7'
    } else if d == 8 {
        '8'
    } else if d == 9 {
        '9'
    } else if d == 10 {
        'a'
    } else if d == 11 {
        'b'
    } else if d == 12 {
        'c'
    } else if d == 13 {
        'd'
    } else if d == 14 {
        'e'
    } else {
        'f'
    }
}

/// Two hexadecimal digits of one byte, high digit first.
pub open spec fn byte_hex(b: u8) -> Seq<char> {
    seq![hex_char((b / 16) as nat), hex_char((b % 16) as nat)]
}

/// The text form of a physical address: two hexadecimal digits per byte,
/// bytes joined with colons.
pub open spec fn mac_string_spec(bytes: Seq<u8>) -> Seq<char>
    decreases bytes.len(),
{
    if bytes.len() == 0 {
        Seq::empty()
    } else if bytes.len() == 1 {
        byte_hex(bytes[0])
    } else {
        mac_string_spec(bytes.drop_last()) + seq![':'] + byte_hex(bytes.last())
    }
}

/// One hexadecimal digit as text.
fn hex_char_str(d: u8) -> (s: &'static str)
    requires
        d < 16,
    ensures
        s@ == seq![hex_char(d as nat)],
{
    let s: &'static str = if d == 0 {
        "0"
    } else if d == 1 {
        "1"
    } else if d == 2 {
        "2"
    } else if d == 3 {
        "3"
    } else if d == 4 {
        "4"
    } else if d == 5 {
        "5"
    } else if d == 6 {
        "6"
    } else if d == 7 {
        "7"
    } else if d == 8 {
        "8"
    } else if d == 9 {
        "9"
    } else if d == 10 {
        "a"
    } else if d == 11 {
        "b"
    } else if d == 12 {
        "c"
    } else if d == 13 {
        "d"
    } else if d == 14 {
        "e"
    } else {
        "f"
    };
    proof {
        reveal_strlit("0");
        reveal_strlit("1");
        reveal_strlit("2");
        reveal_strlit("3");
        reveal_strlit("4");
        reveal_strlit("5");
        reveal_strlit("6");
        reveal_strlit("7");
        reveal_strlit("8");
        reveal_strlit("9");
        reveal_strlit("a");
        reveal_strlit("b");
        reveal_strlit("c");
        reveal_strlit("d");
        reveal_strlit("e");
        reveal_strlit("f");
        assert(s@ =~= seq![hex_char(d as nat)]);
    }
    s
}

impl Interface {
    /// Formats a physical address as lower-case hex digit pairs joined
    /// with colons.
    pub fn format_mac_address(bytes: &[u8]) -> (s: String)
        ensures
            s@ == mac_string_spec(bytes@),
    {
        let mut s = String::new();
        let mut i: usize = 0;
        while i < bytes.len()
            invariant
                i <= bytes@.len(),
                s@ == mac_string_spec(bytes@.take(i as int)),
            decreases bytes@.len() - i,
        {
            if i > 0 {
                s.append(":");
            }
            let b = bytes[i];
            s.append(hex_char_str(b / 16));
            s.append(hex_char_str(b % 16));
            proof {
                reveal_strlit(":");
                let upto = bytes@.take(i as int + 1);
                assert(upto.drop_last() =~= bytes@.take(i as int));
                assert(upto.last() == bytes@[i as int]);
                if i == 0 {
                    assert(s@ =~= byte_hex(bytes@[0]));
                    assert(s@ =~= mac_string_spec(upto));
                } else {
                    assert(":"@ =~= seq![':']);
                    assert(s@ =~= mac_string_spec(bytes@.take(i as int)) + seq![':'] + byte_hex(
                        bytes@[i as int],
                    ));
                    assert(s@ =~= mac_string_spec(upto));
                }
            }
            i = i + 1;
        }
        proof {
            assert(bytes@.take(bytes@.len() as int) =~= bytes@);
        }
        s
    }
}

/// The columns of the standard interface table that a collection walks, in
/// walk order.
#[derive(Debug, Clone, Copy, PartialEq, Eq)]
pub enum InterfaceColumn {
    Index,
    Description,
    Type,
    Mtu,
    Speed,
    PhysAddress,
    AdminStatus,
    OperStatus,
    LastChange,
    InOctets,
    OutOctets,
}

/// Last component of a column's OID under the interface-table entry prefix.
pub open spec fn column_code_spec(c: InterfaceColumn) -> u32 {
    match c {
        InterfaceColumn::Index => 1,
        InterfaceColumn::Description => 2,
        InterfaceColumn::Type => 3,
        InterfaceColumn::Mtu => 4,
        InterfaceColumn::Speed => 5,
        InterfaceColumn::PhysAddress => 6,
        InterfaceColumn::AdminStatus => 7,
        InterfaceColumn::OperStatus => 8,
        InterfaceColumn::LastChange => 9,
        InterfaceColumn::InOctets => 10,
        InterfaceColumn::OutOctets => 16,
    }
}

/// Full column OID: the interface-table entry prefix plus the column code.
pub open spec fn column_oid_spec(c: InterfaceColumn) -> Seq<u32> {
    seq![1u32, 3u32, 6u32, 1u32, 2u32, 1u32, 2u32, 2u32, 1u32].push(column_code_spec(c))
}

/// Builds a column's OID.
pub fn column_oid(c: InterfaceColumn) -> (r: Vec<u32>)
    ensures
        r@ == column_oid_spec(c),
{
    let code: u32 = match c {
        InterfaceColumn::Index => 1,
        InterfaceColumn::Description => 2,
        InterfaceColumn::Type => 3,
        InterfaceColumn::Mtu => 4,
        InterfaceColumn::Speed => 5,
        InterfaceColumn::PhysAddress => 6,
        InterfaceColumn::AdminStatus => 7,
        InterfaceColumn::OperStatus => 8,
        InterfaceColumn::LastChange => 9,
        InterfaceColumn::InOctets => 10,
        InterfaceColumn::OutOctets => 16,
    };
    let mut r: Vec<u32> = Vec::new();
    r.push(1);
    r.push(3);
    r.push(6);
    r.push(1);
    r.push(2);
    r.push(1);
    r.push(2);
    r.push(2);
    r.push(1);
    r.push(code);
    proof {
        assert(r@ =~= column_oid_spec(c));
    }
    r
}

/// The outcome one column walk handed in: its rows, or the transport error
/// that ended it.
pub type WalkOutcome = Result<WalkRows, SnmpError>;

/// The raw material of one collection: the outcome of each column's walk,
/// in one place.
pub struct ColumnWalks {
    pub if_index: WalkOutcome,
    pub if_descr: WalkOutcome,
    pub if_type: WalkOutcome,
    pub if_mtu: WalkOutcome,
    pub if_speed: WalkOutcome,
    pub if_phys_addr: WalkOutcome,
    pub if_admin_status: WalkOutcome,
    pub if_oper_status: WalkOutcome,
    pub if_last_change: WalkOutcome,
    pub if_in_octets: WalkOutcome,
    pub if_out_octets: WalkOutcome,
}

impl ColumnWalks {
    /// The outcome belonging to a column.
    pub open spec fn outcome_of(self, c: InterfaceColumn) -> WalkOutcome {
        match c {
            InterfaceColumn::Index => self.if_index,
            InterfaceColumn::Description => self.if_descr,
            InterfaceColumn::Type => self.if_type,
            InterfaceColumn::Mtu => self.if_mtu,
            InterfaceColumn::Speed => self.if_speed,
            InterfaceColumn::PhysAddress => self.if_phys_addr,
            InterfaceColumn::AdminStatus => self.if_admin_status,
            InterfaceColumn::OperStatus => self.if_oper_status,
            InterfaceColumn::LastChange => self.if_last_change,
            InterfaceColumn::InOctets => self.if_in_octets,
            InterfaceColumn::OutOctets => self.if_out_octets,
        }
    }

    /// Every column walk succeeded at the transport level.
    pub open spec fn all_ok(self) -> bool {
        forall|c: InterfaceColumn| (#[trigger] self.outcome_of(c)) is Ok
    }
}

/// What a lossy UTF-8 decoding of the bytes yields; depends on the bytes
/// alone.
pub uninterp spec fn utf8_lossy_of(bytes: Seq<u8>) -> Seq<char>;

/// Relies on `String::from_utf8_lossy` of std: decodes the bytes as UTF-8
/// with replacement of invalid sequences, a function of the bytes alone.
#[verifier::external_body]
fn utf8_lossy(bytes: &Vec<u8>) -> (r: String)
    ensures
        r@ == utf8_lossy_of(bytes@),
{
    String::from_utf8_lossy(bytes).into_owned()
}

pub open spec fn invalid_index_msg() -> Seq<char> {
    "Failed to extract index from OID"@
}

/// The error that index extraction reports.
pub open spec fn invalid_data_err(e: InterfaceCollectionError) -> bool {
    e matches InterfaceCollectionError::InvalidData(m) && m@ == invalid_index_msg()
}

/// Is this character one of the ten decimal digits?
fn char_is_digit(c: char) -> (b: bool)
    ensures
        b == crate::oid_strings::is_digit_char(c),
{
    c == '0' || c == '1' || c == '2' || c == '3' || c == '4' || c == '5' || c == '6' || c == '7'
        || c == '8' || c == '9'
}

/// Numeric value of a digit character.
fn char_digit(c: char) -> (d: u32)
    requires
        crate::oid_strings::is_digit_char(c),
    ensures
        d as nat == crate::oid_strings::digit_value(c),
        d < 10,
{
    if c == '0' {
        0
    } else if c == '1' {
        1
    } else if c == '2' {
        2
    } else if c == '3' {
        3
    } else if c == '4' {
        4
    } else if c == '5' {
        5
    } else if c == '6' {
        6
    } else if c == '7' {
        7
    } else if c == '8' {
        8
    } else {
        9
    }
}

/// Extracts the table-row index from the text form of an instance OID: the
/// segment after the last dot, read as a `u32`.
pub fn get_index_from_oid(oid_str: &str) -> (r: Result<u32, InterfaceCollectionError>)
    ensures
        match r {
            Ok(v) => parse_u32_spec(last_segment(oid_str@)) == Some(v),
            Err(e) => parse_u32_spec(last_segment(oid_str@)) is None && invalid_data_err(e),
        },
{
    let n = oid_str.unicode_len();
    let mut seg_start: usize = 0;
    let mut i: usize = 0;
    while i < n
        invariant
            n == oid_str@.len(),
            i <= n,
            seg_start <= i,
            last_segment(oid_str@.take(i as int)) == oid_str@.subrange(seg_start as int, i as int),
        decreases n - i,
    {
        let c = oid_str.get_char(i);
        proof {
            assert(oid_str@.take(i as int + 1).last() == oid_str@[i as int]);
            assert(oid_str@.take(i as int + 1).drop_last() =~= oid_str@.take(i as int));
        }
        if c == '.' {
            seg_start = i + 1;
            proof {
                assert(last_segment(oid_str@.take(i as int + 1)) =~= oid_str@.subrange(
                    i as int + 1,
                    i as int + 1,
                ));
            }
        } else {
            proof {
                assert(last_segment(oid_str@.take(i as int + 1)) =~= oid_str@.subrange(
                    seg_start as int,
                    i as int,
                ).push(oid_str@[i as int]));
                assert(oid_str@.subrange(seg_start as int, i as int).push(oid_str@[i as int]) =~= oid_str@.subrange(
                    seg_start as int,
                    i as int + 1,
                ));
            }
        }
        i = i + 1;
    }
    proof {
        assert(oid_str@.take(n as int) =~= oid_str@);
    }
    let ghost seg = oid_str@.subrange(seg_start as int, n as int);
    if seg_start == n {
        proof {
            assert(seg.len() == 0);
        }
        return Err(InterfaceCollectionError::InvalidData(
            String::from_str("Failed to extract index from OID"),
        ));
    }
    let mut acc: u64 = 0;
    let mut j: usize = seg_start;
    while j < n
        invariant
            n == oid_str@.len(),
            seg_start <= j <= n,
            seg_start < n,
            seg == oid_str@.subrange(seg_start as int, n as int),
            last_segment(oid_str@) == seg,
            all_digits(oid_str@.subrange(seg_start as int, j as int)),
            acc as nat == crate::oid_strings::digits_value(
                oid_str@.subrange(seg_start as int, j as int),
            ),
            acc <= u32::MAX as u64,
        decreases n - j,
    {
        let c = oid_str.get_char(j);
        let ghost part = oid_str@.subrange(seg_start as int, j as int);
        let ghost part1 = oid_str@.subrange(seg_start as int, j as int + 1);
        proof {
            assert(part1.last() == oid_str@[j as int]);
            assert(part1.drop_last() =~= part);
        }
        if !char_is_digit(c) {
            proof {
                assert(seg[j - seg_start] == c);
                assert(!all_digits(seg));
            }
            return Err(InterfaceCollectionError::InvalidData(
                String::from_str("Failed to extract index from OID"),
            ));
        }
        let d = char_digit(c);
        let next: u64 = acc * 10 + (d as u64);
        proof {
            assert forall|t: int| 0 <= t < part1.len() implies crate::oid_strings::is_digit_char(
                #[trigger] part1[t],
            ) by {
                if t < part.len() {
                    assert(part1[t] == part[t]);
                } else {
                    assert(part1[t] == c);
                }
            }
            assert(crate::oid_strings::digits_value(part1) == crate::oid_strings::digits_value(
                part,
            ) * 10 + crate::oid_strings::digit_value(c));
            assert(next as nat == crate::oid_strings::digits_value(part1));
        }
        if next > u32::MAX as u64 {
            proof {
                crate::oid_strings::lemma_digits_value_monotonic(seg, j as int + 1 - seg_start);
                assert(seg.take(j as int + 1 - seg_start) =~= part1);
                assert(crate::oid_strings::digits_value(seg) > u32::MAX);
            }
            return Err(InterfaceCollectionError::InvalidData(
                String::from_str("Failed to extract index from OID"),
            ));
        }
        acc = next;
        j = j + 1;
    }
    proof {
        assert(oid_str@.subrange(seg_start as int, n as int) =~= seg);
        assert(parse_u32_spec(seg) == Some(acc as u32));
    }
    Ok(acc as u32)
}

/// Column rule for plain integer columns (index, type, administrative and
/// operational status): an `Integer` row, taken modulo 2^32.
pub open spec fn sel_int_u32(v: SnmpValueOwned) -> Option<u32> {
    match v {
        SnmpValueOwned::Integer(i) => Some(i as u32),
        _ => None,
    }
}

pub open spec fn sel_int_u32_fn() -> spec_fn(SnmpValueOwned) -> Option<u32> {
    |v: SnmpValueOwned| sel_int_u32(v)
}

/// Column rule for the MTU: an `Integer` row, kept as signed.
pub open spec fn sel_mtu(v: SnmpValueOwned) -> Option<i64> {
    match v {
        SnmpValueOwned::Integer(i) => Some(i),
        _ => None,
    }
}

pub open spec fn sel_mtu_fn() -> spec_fn(SnmpValueOwned) -> Option<i64> {
    |v: SnmpValueOwned| sel_mtu(v)
}

/// Column rule for the speed: agents vary, so `Gauge32`, `Integer` and
/// `Counter32` are all accepted.
pub open spec fn sel_speed(v: SnmpValueOwned) -> Option<u32> {
    match v {
        SnmpValueOwned::Gauge32(g) => Some(g),
        SnmpValueOwned::Integer(i) => Some(i as u32),
        SnmpValueOwned::Counter32(c) => Some(c),
        _ => None,
    }
}

pub open spec fn sel_speed_fn() -> spec_fn(SnmpValueOwned) -> Option<u32> {
    |v: SnmpValueOwned| sel_speed(v)
}

/// Column rule for descriptions: an `OctetString` row, decoded as UTF-8
/// with lossy replacement — one malformed string never fails a collection.
pub open spec fn sel_descr(v: SnmpValueOwned) -> Option<Seq<char>> {
    match v {
        SnmpValueOwned::OctetString(b) => Some(utf8_lossy_of(b@)),
        _ => None,
    }
}

pub open spec fn sel_descr_fn() -> spec_fn(SnmpValueOwned) -> Option<Seq<char>> {
    |v: SnmpValueOwned| sel_descr(v)
}

/// Column rule for the physical address: only a non-empty `OctetString`
/// counts; an empty one means "absent", not a zero-length address.
pub open spec fn sel_phys(v: SnmpValueOwned) -> Option<Seq<u8>> {
    match v {
        SnmpValueOwned::OctetString(b) => if b@.len() > 0 {
            Some(b@)
        } else {
            None
        },
        _ => None,
    }
}

pub open spec fn sel_phys_fn() -> spec_fn(SnmpValueOwned) -> Option<Seq<u8>> {
    |v: SnmpValueOwned| sel_phys(v)
}

/// Column rule for the last-change time: a `TimeTicks` row.
pub open spec fn sel_ticks(v: SnmpValueOwned) -> Option<u32> {
    match v {
        SnmpValueOwned::TimeTicks(t) => Some(t),
        _ => None,
    }
}

pub open spec fn sel_ticks_fn() -> spec_fn(SnmpValueOwned) -> Option<u32> {
    |v: SnmpValueOwned| sel_ticks(v)
}

/// Column rule for traffic octet counters: `Counter32` or `Counter64`,
/// preserved as the wider of the two without truncation.
pub open spec fn sel_octets(v: SnmpValueOwned) -> Option<u64> {
    match v {
        SnmpValueOwned::Counter32(c) => Some(c as u64),
        SnmpValueOwned::Counter64(c) => Some(c),
        _ => None,
    }
}

pub open spec fn sel_octets_fn() -> spec_fn(SnmpValueOwned) -> Option<u64> {
    |v: SnmpValueOwned| sel_octets(v)
}

/// The (row index, decoded value) pairs a column contributes: one per row
/// the column rule accepts, keyed by the trailing component of the row's
/// instance OID, in walk order.
pub open spec fn column_entries<V>(
    rows: Seq<(Vec<u32>, SnmpValueOwned)>,
    sel: spec_fn(SnmpValueOwned) -> Option<V>,
) -> Seq<(u32, V)>
    decreases rows.len(),
{
    if rows.len() == 0 {
        Seq::empty()
    } else {
        let rest = column_entries(rows.drop_last(), sel);
        let row = rows.last();
        if sel(row.1) is Some && row.0@.len() > 0 {
            rest.push((row.0@.last(), sel(row.1)->Some_0))
        } else {
            rest
        }
    }
}

/// Every row the column rule accepts has an instance OID with a trailing
/// component to serve as its row index.
pub open spec fn column_extractable<V>(
    rows: Seq<(Vec<u32>, SnmpValueOwned)>,
    sel: spec_fn(SnmpValueOwned) -> Option<V>,
) -> bool {
    forall|k: int|
        0 <= k < rows.len() && (#[trigger] sel(rows[k].1)) is Some ==> rows[k].0@.len() > 0
}

/// First entry with the given row index, if any.
pub open spec fn lookup_entry<V>(entries: Seq<(u32, V)>, key: u32) -> Option<V>
    decreases entries.len(),
{
    if entries.len() == 0 {
        None
    } else if entries.first().0 == key {
        Some(entries.first().1)
    } else {
        lookup_entry(entries.drop_first(), key)
    }
}

/// When the column rule accepts every row and every row has a usable OID,
/// the column contributes exactly one entry per row, in row order: the
/// row's trailing OID component and its decoded value.
pub proof fn lemma_column_entries_full<V>(
    rows: Seq<(Vec<u32>, SnmpValueOwned)>,
    sel: spec_fn(SnmpValueOwned) -> Option<V>,
)
    requires
        forall|k: int|
            0 <= k < rows.len() ==> (#[trigger] sel(rows[k].1)) is Some && rows[k].0@.len() > 0,
    ensures
        column_entries(rows, sel).len() == rows.len(),
        forall|k: int|
            0 <= k < rows.len() ==> #[trigger] column_entries(rows, sel)[k] == (
                rows[k].0@.last(),
                sel(rows[k].1)->Some_0,
            ),
    decreases rows.len(),
{
    if rows.len() > 0 {
        lemma_column_entries_full(rows.drop_last(), sel);
    }
}

/// Extracts the table-row index of one instance OID the way the collector
/// uses it: through the dotted text form. For OIDs held as component
/// sequences this is exactly the last component.
fn row_index(oid: &Vec<u32>) -> (r: Result<u32, InterfaceCollectionError>)
    ensures
        match r {
            Ok(v) => oid@.len() > 0 && v == oid@.last(),
            Err(e) => oid@.len() == 0 && invalid_data_err(e),
        },
{
    let s = format_oid(oid.as_slice());
    let r = get_index_from_oid(s.as_str());
    proof {
        if oid@.len() > 0 {
            lemma_parse_formatted_oid(oid@);
        } else {
            assert(format_oid_spec(oid@).len() == 0);
            assert(last_segment(s@).len() == 0);
        }
    }
    r
}

/// Entries of a description column at the level of character sequences.
pub open spec fn string_entries_view(es: Seq<(u32, String)>) -> Seq<(u32, Seq<char>)> {
    es.map_values(|p: (u32, String)| (p.0, p.1@))
}

/// Entries of a byte-valued column at the level of byte sequences.
pub open spec fn bytes_entries_view(es: Seq<(u32, Vec<u8>)>) -> Seq<(u32, Seq<u8>)> {
    es.map_values(|p: (u32, Vec<u8>)| (p.0, p.1@))
}

/// Collects the `Integer` rows of a column as `(row index, value mod 2^32)`.
fn extract_u32_entries(rows: &WalkRows) -> (r: Result<Vec<(u32, u32)>, InterfaceCollectionError>)
    ensures
        match r {
            Ok(es) => column_extractable(rows@, sel_int_u32_fn()) && es@ == column_entries(
                rows@,
                sel_int_u32_fn(),
            ),
            Err(e) => !column_extractable(rows@, sel_int_u32_fn()) && invalid_data_err(e),
        },
{
    let ghost sel = sel_int_u32_fn();
    let mut es: Vec<(u32, u32)> = Vec::new();
    let mut i: usize = 0;
    while i < rows.len()
        invariant
            i <= rows@.len(),
            sel == sel_int_u32_fn(),
            es@ == column_entries(rows@.take(i as int), sel),
            column_extractable(rows@.take(i as int), sel),
        decreases rows@.len() - i,
    {
        let ghost prev = rows@.take(i as int);
        let ghost cur = rows@.take(i as int + 1);
        proof {
            assert(cur.drop_last() =~= prev);
            assert(cur.last() == rows@[i as int]);
        }
        let row = &rows[i];
        match &row.1 {
            SnmpValueOwned::Integer(iv) => {
                match row_index(&row.0) {
                    Ok(key) => {
                        let val: u32 = #[verifier::truncate] (*iv as u32);
                        es.push((key, val));
                        proof {
                            assert(es@ =~= column_entries(cur, sel));
                            assert forall|k: int|
                                0 <= k < cur.len() && (#[trigger] sel(cur[k].1)) is Some implies cur[k].0@.len()
                                > 0 by {
                                if k < i {
                                    assert(cur[k] == prev[k]);
                                }
                            }
                        }
                    },
                    Err(e) => {
                        proof {
                            assert(sel(rows@[i as int].1) is Some);
                            assert(!column_extractable(rows@, sel));
                        }
                        return Err(e);
                    },
                }
            },
            _ => {
                proof {
                    assert(sel(rows@[i as int].1) is None);
                    assert(es@ =~= column_entries(cur, sel));
                    assert forall|k: int|
                        0 <= k < cur.len() && (#[trigger] sel(cur[k].1)) is Some implies cur[k].0@.len()
                        > 0 by {
                        if k < i {
                            assert(cur[k] == prev[k]);
                        }
                    }
                }
            },
        }
        i = i + 1;
    }
    proof {
        assert(rows@.take(rows@.len() as int) =~= rows@);
    }
    Ok(es)
}

/// Collects the `Integer` rows of the MTU column as signed values.
fn extract_i64_entries(rows: &WalkRows) -> (r: Result<Vec<(u32, i64)>, InterfaceCollectionError>)
    ensures
        match r {
            Ok(es) => column_extractable(rows@, sel_mtu_fn()) && es@ == column_entries(
                rows@,
                sel_mtu_fn(),
            ),
            Err(e) => !column_extractable(rows@, sel_mtu_fn()) && invalid_data_err(e),
        },
{
    let ghost sel = sel_mtu_fn();
    let mut es: Vec<(u32, i64)> = Vec::new();
    let mut i: usize = 0;
    while i < rows.len()
        invariant
            i <= rows@.len(),
            sel == sel_mtu_fn(),
            es@ == column_entries(rows@.take(i as int), sel),
            column_extractable(rows@.take(i as int), sel),
        decreases rows@.len() - i,
    {
        let ghost prev = rows@.take(i as int);
        let ghost cur = rows@.take(i as int + 1);
        proof {
            assert(cur.drop_last() =~= prev);
            assert(cur.last() == rows@[i as int]);
        }
        let row = &rows[i];
        match &row.1 {
            SnmpValueOwned::Integer(iv) => {
                match row_index(&row.0) {
                    Ok(key) => {
                        es.push((key, *iv));
                        proof {
                            assert(es@ =~= column_entries(cur, sel));
                            assert forall|k: int|
                                0 <= k < cur.len() && (#[trigger] sel(cur[k].1)) is Some implies cur[k].0@.len()
                                > 0 by {
                                if k < i {
                                    assert(cur[k] == prev[k]);
                                }
                            }
                        }
                    },
                    Err(e) => {
                        proof {
                            assert(sel(rows@[i as int].1) is Some);
                            assert(!column_extractable(rows@, sel));
                        }
                        return Err(e);
                    },
                }
            },
            _ => {
                proof {
                    assert(sel(rows@[i as int].1) is None);
                    assert(es@ =~= column_entries(cur, sel));
                    assert forall|k: int|
                        0 <= k < cur.len() && (#[trigger] sel(cur[k].1)) is Some implies cur[k].0@.len()
                        > 0 by {
                        if k < i {
                            assert(cur[k] == prev[k]);
                        }
                    }
                }
            },
        }
        i = i + 1;
    }
    proof {
        assert(rows@.take(rows@.len() as int) =~= rows@);
    }
    Ok(es)
}

/// Collects the speed column: `Gauge32`, `Integer` or `Counter32` rows.
fn extract_speed_entries(rows: &WalkRows) -> (r: Result<
    Vec<(u32, u32)>,
    InterfaceCollectionError,
>)
    ensures
        match r {
            Ok(es) => column_extractable(rows@, sel_speed_fn()) && es@ == column_entries(
                rows@,
                sel_speed_fn(),
            ),
            Err(e) => !column_extractable(rows@, sel_speed_fn()) && invalid_data_err(e),
        },
{
    let ghost sel = sel_speed_fn();
    let mut es: Vec<(u32, u32)> = Vec::new();
    let mut i: usize = 0;
    while i < rows.len()
        invariant
            i <= rows@.len(),
            sel == sel_speed_fn(),
            es@ == column_entries(rows@.take(i as int), sel),
            column_extractable(rows@.take(i as int), sel),
        decreases rows@.len() - i,
    {
        let ghost prev = rows@.take(i as int);
        let ghost cur = rows@.take(i as int + 1);
        proof {
            assert(cur.drop_last() =~= prev);
            assert(cur.last() == rows@[i as int]);
        }
        let row = &rows[i];
        let accepted: Option<u32> = match &row.1 {
            SnmpValueOwned::Gauge32(g) => Some(*g),
            SnmpValueOwned::Integer(iv) => Some(#[verifier::truncate] (*iv as u32)),
            SnmpValueOwned::Counter32(c) => Some(*c),
            _ => None,
        };
        proof {
            assert(accepted == sel(rows@[i as int].1));
        }
        match accepted {
            Some(val) => {
                match row_index(&row.0) {
                    Ok(key) => {
                        es.push((key, val));
                        proof {
                            assert(es@ =~= column_entries(cur, sel));
                            assert forall|k: int|
                                0 <= k < cur.len() && (#[trigger] sel(cur[k].1)) is Some implies cur[k].0@.len()
                                > 0 by {
                                if k < i {
                                    assert(cur[k] == prev[k]);
                                }
                            }
                        }
                    },
                    Err(e) => {
                        proof {
                            assert(!column_extractable(rows@, sel));
                        }
                        return Err(e);
                    },
                }
            },
            None => {
                proof {
                    assert(es@ =~= column_entries(cur, sel));
                    assert forall|k: int|
                        0 <= k < cur.len() && (#[trigger] sel(cur[k].1)) is Some implies cur[k].0@.len()
                        > 0 by {
                        if k < i {
                            assert(cur[k] == prev[k]);
                        }
                    }
                }
            },
        }
        i = i + 1;
    }
    proof {
        assert(rows@.take(rows@.len() as int) =~= rows@);
    }
    Ok(es)
}

/// Collects the last-change column: `TimeTicks` rows.
fn extract_ticks_entries(rows: &WalkRows) -> (r: Result<
    Vec<(u32, u32)>,
    InterfaceCollectionError,
>)
    ensures
        match r {
            Ok(es) => column_extractable(rows@, sel_ticks_fn()) && es@ == column_entries(
                rows@,
                sel_ticks_fn(),
            ),
            Err(e) => !column_extractable(rows@, sel_ticks_fn()) && invalid_data_err(e),
        },
{
    let ghost sel = sel_ticks_fn();
    let mut es: Vec<(u32, u32)> = Vec::new();
    let mut i: usize = 0;
    while i < rows.len()
        invariant
            i <= rows@.len(),
            sel == sel_ticks_fn(),
            es@ == column_entries(rows@.take(i as int), sel),
            column_extractable(rows@.take(i as int), sel),
        decreases rows@.len() - i,
    {
        let ghost prev = rows@.take(i as int);
        let ghost cur = rows@.take(i as int + 1);
        proof {
            assert(cur.drop_last() =~= prev);
            assert(cur.last() == rows@[i as int]);
        }
        let row = &rows[i];
        match &row.1 {
            SnmpValueOwned::TimeTicks(t) => {
                match row_index(&row.0) {
                    Ok(key) => {
                        es.push((key, *t));
                        proof {
                            assert(es@ =~= column_entries(cur, sel));
                            assert forall|k: int|
                                0 <= k < cur.len() && (#[trigger] sel(cur[k].1)) is Some implies cur[k].0@.len()
                                > 0 by {
                                if k < i {
                                    assert(cur[k] == prev[k]);
                                }
                            }
                        }
                    },
                    Err(e) => {
                        proof {
                            assert(sel(rows@[i as int].1) is Some);
                            assert(!column_extractable(rows@, sel));
                        }
                        return Err(e);
                    },
                }
            },
            _ => {
                proof {
                    assert(sel(rows@[i as int].1) is None);
                    assert(es@ =~= column_entries(cur, sel));
                    assert forall|k: int|
                        0 <= k < cur.len() && (#[trigger] sel(cur[k].1)) is Some implies cur[k].0@.len()
                        > 0 by {
                        if k < i {
                            assert(cur[k] == prev[k]);
                        }
                    }
                }
            },
        }
        i = i + 1;
    }
    proof {
        assert(rows@.take(rows@.len() as int) =~= rows@);
    }
    Ok(es)
}

/// Collects a traffic-counter column: `Counter32` or `Counter64` rows, kept
/// as 64-bit values.
fn extract_u64_entries(rows: &WalkRows) -> (r: Result<Vec<(u32, u64)>, InterfaceCollectionError>)
    ensures
        match r {
            Ok(es) => column_extractable(rows@, sel_octets_fn()) && es@ == column_entries(
                rows@,
                sel_octets_fn(),
            ),
            Err(e) => !column_extractable(rows@, sel_octets_fn()) && invalid_data_err(e),
        },
{
    let ghost sel = sel_octets_fn();
    let mut es: Vec<(u32, u64)> = Vec::new();
    let mut i: usize = 0;
    while i < rows.len()
        invariant
            i <= rows@.len(),
            sel == sel_octets_fn(),
            es@ == column_entries(rows@.take(i as int), sel),
            column_extractable(rows@.take(i as int), sel),
        decreases rows@.len() - i,
    {
        let ghost prev = rows@.take(i as int);
        let ghost cur = rows@.take(i as int + 1);
        proof {
            assert(cur.drop_last() =~= prev);
            assert(cur.last() == rows@[i as int]);
        }
        let row = &rows[i];
        let accepted: Option<u64> = match &row.1 {
            SnmpValueOwned::Counter32(c) => Some(*c as u64),
            SnmpValueOwned::Counter64(c) => Some(*c),
            _ => None,
        };
        proof {
            assert(accepted == sel(rows@[i as int].1));
        }
        match accepted {
            Some(val) => {
                match row_index(&row.0) {
                    Ok(key) => {
                        es.push((key, val));
                        proof {
                            assert(es@ =~= column_entries(cur, sel));
                            assert forall|k: int|
                                0 <= k < cur.len() && (#[trigger] sel(cur[k].1)) is Some implies cur[k].0@.len()
                                > 0 by {
                                if k < i {
                                    assert(cur[k] == prev[k]);
                                }
                            }
                        }
                    },
                    Err(e) => {
                        proof {
                            assert(!column_extractable(rows@, sel));
                        }
                        return Err(e);
                    },
                }
            },
            None => {
                proof {
                    assert(es@ =~= column_entries(cur, sel));
                    assert forall|k: int|
                        0 <= k < cur.len() && (#[trigger] sel(cur[k].1)) is Some implies cur[k].0@.len()
                        > 0 by {
                        if k < i {
                            assert(cur[k] == prev[k]);
                        }
                    }
                }
            },
        }
        i = i + 1;
    }
    proof {
        assert(rows@.take(rows@.len() as int) =~= rows@);
    }
    Ok(es)
}

/// Collects the description column: `OctetString` rows decoded as UTF-8
/// with lossy replacement.
fn extract_string_entries(rows: &WalkRows) -> (r: Result<
    Vec<(u32, String)>,
    InterfaceCollectionError,
>)
    ensures
        match r {
            Ok(es) => column_extractable(rows@, sel_descr_fn()) && string_entries_view(es@)
                == column_entries(rows@, sel_descr_fn()),
            Err(e) => !column_extractable(rows@, sel_descr_fn()) && invalid_data_err(e),
        },
{
    let ghost sel = sel_descr_fn();
    let mut es: Vec<(u32, String)> = Vec::new();
    let mut i: usize = 0;
    while i < rows.len()
        invariant
            i <= rows@.len(),
            sel == sel_descr_fn(),
            string_entries_view(es@) == column_entries(rows@.take(i as int), sel),
            column_extractable(rows@.take(i as int), sel),
        decreases rows@.len() - i,
    {
        let ghost prev = rows@.take(i as int);
        let ghost cur = rows@.take(i as int + 1);
        proof {
            assert(cur.drop_last() =~= prev);
            assert(cur.last() == rows@[i as int]);
        }
        let row = &rows[i];
        match &row.1 {
            SnmpValueOwned::OctetString(b) => {
                match row_index(&row.0) {
                    Ok(key) => {
                        let text = utf8_lossy(b);
                        es.push((key, text));
                        proof {
                            assert(string_entries_view(es@) =~= column_entries(cur, sel));
                            assert forall|k: int|
                                0 <= k < cur.len() && (#[trigger] sel(cur[k].1)) is Some implies cur[k].0@.len()
                                > 0 by {
                                if k < i {
                                    assert(cur[k] == prev[k]);
                                }
                            }
                        }
                    },
                    Err(e) => {
                        proof {
                            assert(sel(rows@[i as int].1) is Some);
                            assert(!column_extractable(rows@, sel));
                        }
                        return Err(e);
                    },
                }
            },
            _ => {
                proof {
                    assert(sel(rows@[i as int].1) is None);
                    assert(string_entries_view(es@) =~= column_entries(cur, sel));
                    assert forall|k: int|
                        0 <= k < cur.len() && (#[trigger] sel(cur[k].1)) is Some implies cur[k].0@.len()
                        > 0 by {
                        if k < i {
                            assert(cur[k] == prev[k]);
                        }
                    }
                }
            },
        }
        i = i + 1;
    }
    proof {
        assert(rows@.take(rows@.len() as int) =~= rows@);
    }
    Ok(es)
}

/// Collects the physical-address column: non-empty `OctetString` rows; an
/// empty one is "absent" and contributes nothing.
fn extract_bytes_entries(rows: &WalkRows) -> (r: Result<
    Vec<(u32, Vec<u8>)>,
    InterfaceCollectionError,
>)
    ensures
        match r {
            Ok(es) => column_extractable(rows@, sel_phys_fn()) && bytes_entries_view(es@)
                == column_entries(rows@, sel_phys_fn()),
            Err(e) => !column_extractable(rows@, sel_phys_fn()) && invalid_data_err(e),
        },
{
    let ghost sel = sel_phys_fn();
    let mut es: Vec<(u32, Vec<u8>)> = Vec::new();
    let mut i: usize = 0;
    while i < rows.len()
        invariant
            i <= rows@.len(),
            sel == sel_phys_fn(),
            bytes_entries_view(es@) == column_entries(rows@.take(i as int), sel),
            column_extractable(rows@.take(i as int), sel),
        decreases rows@.len() - i,
    {
        let ghost prev = rows@.take(i as int);
        let ghost cur = rows@.take(i as int + 1);
        proof {
            assert(cur.drop_last() =~= prev);
            assert(cur.last() == rows@[i as int]);
        }
        let row = &rows[i];
        let mut selected = false;
        match &row.1 {
            SnmpValueOwned::OctetString(b) => {
                if b.len() > 0 {
                    selected = true;
                    match row_index(&row.0) {
                        Ok(key) => {
                            let addr = copy_bytes(b);
                            es.push((key, addr));
                            proof {
                                assert(bytes_entries_view(es@) =~= column_entries(cur, sel));
                                assert forall|k: int|
                                    0 <= k < cur.len() && (#[trigger] sel(cur[k].1)) is Some implies cur[k].0@.len()
                                    > 0 by {
                                    if k < i {
                                        assert(cur[k] == prev[k]);
                                    }
                                }
                            }
                        },
                        Err(e) => {
                            proof {
                                assert(sel(rows@[i as int].1) is Some);
                                assert(!column_extractable(rows@, sel));
                            }
                            return Err(e);
                        },
                    }
                }
            },
            _ => {},
        }
        if !selected {
            proof {
                assert(sel(rows@[i as int].1) is None);
                assert(bytes_entries_view(es@) =~= column_entries(cur, sel));
                assert forall|k: int|
                    0 <= k < cur.len() && (#[trigger] sel(cur[k].1)) is Some implies cur[k].0@.len()
                    > 0 by {
                    if k < i {
                        assert(cur[k] == prev[k]);
                    }
                }
            }
        }
        i = i + 1;
    }
    proof {
        assert(rows@.take(rows@.len() as int) =~= rows@);
    }
    Ok(es)
}

/// First value for a row index in a column of `u32` entries.
fn lookup_u32(entries: &Vec<(u32, u32)>, key: u32) -> (r: Option<u32>)
    ensures
        r == lookup_entry(entries@, key),
{
    proof {
        assert(entries@.skip(0) =~= entries@);
    }
    let mut i: usize = 0;
    while i < entries.len()
        invariant
            i <= entries@.len(),
            lookup_entry(entries@, key) == lookup_entry(entries@.skip(i as int), key),
            forall|j: int| 0 <= j < i ==> (#[trigger] entries@[j]).0 != key,
        decreases entries@.len() - i,
    {
        proof {
            assert(entries@.skip(i as int).first() == entries@[i as int]);
        }
        if entries[i].0 == key {
            return Some(entries[i].1);
        }
        proof {
            assert(entries@.skip(i as int).drop_first() =~= entries@.skip(i as int + 1));
        }
        i = i + 1;
    }
    proof {
        assert(entries@.skip(entries@.len() as int).len() == 0);
    }
    None
}

/// First value for a row index in the MTU column.
fn lookup_i64(entries: &Vec<(u32, i64)>, key: u32) -> (r: Option<i64>)
    ensures
        r == lookup_entry(entries@, key),
{
    proof {
        assert(entries@.skip(0) =~= entries@);
    }
    let mut i: usize = 0;
    while i < entries.len()
        invariant
            i <= entries@.len(),
            lookup_entry(entries@, key) == lookup_entry(entries@.skip(i as int), key),
        decreases entries@.len() - i,
    {
        proof {
            assert(entries@.skip(i as int).first() == entries@[i as int]);
        }
        if entries[i].0 == key {
            return Some(entries[i].1);
        }
        proof {
            assert(entries@.skip(i as int).drop_first() =~= entries@.skip(i as int + 1));
        }
        i = i + 1;
    }
    proof {
        assert(entries@.skip(entries@.len() as int).len() == 0);
    }
    None
}

/// First value for a row index in a traffic-counter column.
fn lookup_u64(entries: &Vec<(u32, u64)>, key: u32) -> (r: Option<u64>)
    ensures
        r == lookup_entry(entries@, key),
{
    proof {
        assert(entries@.skip(0) =~= entries@);
    }
    let mut i: usize = 0;
    while i < entries.len()
        invariant
            i <= entries@.len(),
            lookup_entry(entries@, key) == lookup_entry(entries@.skip(i as int), key),
        decreases entries@.len() - i,
    {
        proof {
            assert(entries@.skip(i as int).first() == entries@[i as int]);
        }
        if entries[i].0 == key {
            return Some(entries[i].1);
        }
        proof {
            assert(entries@.skip(i as int).drop_first() =~= entries@.skip(i as int + 1));
        }
        i = i + 1;
    }
    proof {
        assert(entries@.skip(entries@.len() as int).len() == 0);
    }
    None
}

/// First value for a row index in the description column.
fn lookup_string(entries: &Vec<(u32, String)>, key: u32) -> (r: Option<String>)
    ensures
        match r {
            Some(s) => lookup_entry(string_entries_view(entries@), key) == Some(s@),
            None => lookup_entry(string_entries_view(entries@), key) is None,
        },
{
    proof {
        assert(string_entries_view(entries@).skip(0) =~= string_entries_view(entries@));
    }
    let mut i: usize = 0;
    while i < entries.len()
        invariant
            i <= entries@.len(),
            lookup_entry(string_entries_view(entries@), key) == lookup_entry(
                string_entries_view(entries@).skip(i as int),
                key,
            ),
        decreases entries@.len() - i,
    {
        let ghost view = string_entries_view(entries@);
        proof {
            assert(view[i as int] == (entries@[i as int].0, entries@[i as int].1@));
            assert(view.skip(i as int).first() == view[i as int]);
        }
        if entries[i].0 == key {
            let s = entries[i].1.clone();
            return Some(s);
        }
        proof {
            assert(view.skip(i as int).drop_first() =~= view.skip(i as int + 1));
        }
        i = i + 1;
    }
    proof {
        assert(string_entries_view(entries@).skip(entries@.len() as int).len() == 0);
    }
    None
}

/// First value for a row index in the physical-address column.
fn lookup_bytes(entries: &Vec<(u32, Vec<u8>)>, key: u32) -> (r: Option<Vec<u8>>)
    ensures
        match r {
            Some(b) => lookup_entry(bytes_entries_view(entries@), key) == Some(b@),
            None => lookup_entry(bytes_entries_view(entries@), key) is None,
        },
{
    proof {
        assert(bytes_entries_view(entries@).skip(0) =~= bytes_entries_view(entries@));
    }
    let mut i: usize = 0;
    while i < entries.len()
        invariant
            i <= entries@.len(),
            lookup_entry(bytes_entries_view(entries@), key) == lookup_entry(
                bytes_entries_view(entries@).skip(i as int),
                key,
            ),
        decreases entries@.len() - i,
    {
        let ghost view = bytes_entries_view(entries@);
        proof {
            assert(view[i as int] == (entries@[i as int].0, entries@[i as int].1@));
            assert(view.skip(i as int).first() == view[i as int]);
        }
        if entries[i].0 == key {
            let b = copy_bytes(&entries[i].1);
            return Some(b);
        }
        proof {
            assert(view.skip(i as int).drop_first() =~= view.skip(i as int + 1));
        }
        i = i + 1;
    }
    proof {
        assert(bytes_entries_view(entries@).skip(entries@.len() as int).len() == 0);
    }
    None
}

/// Rows of the column's walk, meaningful when that walk succeeded.
pub open spec fn rows_for(w: ColumnWalks, c: InterfaceColumn) -> Seq<(Vec<u32>, SnmpValueOwned)> {
    w.outcome_of(c)->Ok_0@
}

pub open spec fn index_entries(w: ColumnWalks) -> Seq<(u32, u32)> {
    column_entries(rows_for(w, InterfaceColumn::Index), sel_int_u32_fn())
}

pub open spec fn descr_entries(w: ColumnWalks) -> Seq<(u32, Seq<char>)> {
    column_entries(rows_for(w, InterfaceColumn::Description), sel_descr_fn())
}

pub open spec fn type_entries(w: ColumnWalks) -> Seq<(u32, u32)> {
    column_entries(rows_for(w, InterfaceColumn::Type), sel_int_u32_fn())
}

pub open spec fn mtu_entries(w: ColumnWalks) -> Seq<(u32, i64)> {
    column_entries(rows_for(w, InterfaceColumn::Mtu), sel_mtu_fn())
}

pub open spec fn speed_entries(w: ColumnWalks) -> Seq<(u32, u32)> {
    column_entries(rows_for(w, InterfaceColumn::Speed), sel_speed_fn())
}

pub open spec fn phys_entries(w: ColumnWalks) -> Seq<(u32, Seq<u8>)> {
    column_entries(rows_for(w, InterfaceColumn::PhysAddress), sel_phys_fn())
}

pub open spec fn admin_entries(w: ColumnWalks) -> Seq<(u32, u32)> {
    column_entries(rows_for(w, InterfaceColumn::AdminStatus), sel_int_u32_fn())
}

pub open spec fn oper_entries(w: ColumnWalks) -> Seq<(u32, u32)> {
    column_entries(rows_for(w, InterfaceColumn::OperStatus), sel_int_u32_fn())
}

pub open spec fn last_change_entries(w: ColumnWalks) -> Seq<(u32, u32)> {
    column_entries(rows_for(w, InterfaceColumn::LastChange), sel_ticks_fn())
}

pub open spec fn in_octets_entries(w: ColumnWalks) -> Seq<(u32, u64)> {
    column_entries(rows_for(w, InterfaceColumn::InOctets), sel_octets_fn())
}

pub open spec fn out_octets_entries(w: ColumnWalks) -> Seq<(u32, u64)> {
    column_entries(rows_for(w, InterfaceColumn::OutOctets), sel_octets_fn())
}

/// Row indices can be extracted from every row of the column that its rule
/// accepts.
pub open spec fn col_extractable(w: ColumnWalks, c: InterfaceColumn) -> bool {
    match c {
        InterfaceColumn::Index => column_extractable(rows_for(w, c), sel_int_u32_fn()),
        InterfaceColumn::Description => column_extractable(rows_for(w, c), sel_descr_fn()),
        InterfaceColumn::Type => column_extractable(rows_for(w, c), sel_int_u32_fn()),
        InterfaceColumn::Mtu => column_extractable(rows_for(w, c), sel_mtu_fn()),
        InterfaceColumn::Speed => column_extractable(rows_for(w, c), sel_speed_fn()),
        InterfaceColumn::PhysAddress => column_extractable(rows_for(w, c), sel_phys_fn()),
        InterfaceColumn::AdminStatus => column_extractable(rows_for(w, c), sel_int_u32_fn()),
        InterfaceColumn::OperStatus => column_extractable(rows_for(w, c), sel_int_u32_fn()),
        InterfaceColumn::LastChange => column_extractable(rows_for(w, c), sel_ticks_fn()),
        InterfaceColumn::InOctets => column_extractable(rows_for(w, c), sel_octets_fn()),
        InterfaceColumn::OutOctets => column_extractable(rows_for(w, c), sel_octets_fn()),
    }
}

/// A collection succeeds exactly when every walk succeeded, the index
/// column has at least one row, and every accepted row's index could be
/// extracted.
pub open spec fn collect_succeeds(w: ColumnWalks) -> bool {
    &&& w.all_ok()
    &&& rows_for(w, InterfaceColumn::Index).len() > 0
    &&& forall|c: InterfaceColumn| #[trigger] col_extractable(w, c)
}

/// The error is a `WalkFailed` naming column `c` and carrying the
/// transport error that ended its walk.
pub open spec fn walk_failed_err(
    e: InterfaceCollectionError,
    c: InterfaceColumn,
    src: SnmpError,
) -> bool {
    e matches InterfaceCollectionError::WalkFailed { oid, source } && oid@ == format_oid_spec(
        column_oid_spec(c),
    ) && source == src
}

/// Which error a failed collection reports: the first failure in column
/// walk order decides.
pub open spec fn collect_failure(w: ColumnWalks, e: InterfaceCollectionError) -> bool {
    if w.if_index is Err {
        walk_failed_err(e, InterfaceColumn::Index, w.if_index->Err_0)
    } else if rows_for(w, InterfaceColumn::Index).len() == 0 {
        e is NoInterfaces
    } else if !col_extractable(w, InterfaceColumn::Index) {
        invalid_data_err(e)
    } else if w.if_descr is Err {
        walk_failed_err(e, InterfaceColumn::Description, w.if_descr->Err_0)
    } else if !col_extractable(w, InterfaceColumn::Description) {
        invalid_data_err(e)
    } else if w.if_type is Err {
        walk_failed_err(e, InterfaceColumn::Type, w.if_type->Err_0)
    } else if !col_extractable(w, InterfaceColumn::Type) {
        invalid_data_err(e)
    } else if w.if_mtu is Err {
        walk_failed_err(e, InterfaceColumn::Mtu, w.if_mtu->Err_0)
    } else if !col_extractable(w, InterfaceColumn::Mtu) {
        invalid_data_err(e)
    } else if w.if_speed is Err {
        walk_failed_err(e, InterfaceColumn::Speed, w.if_speed->Err_0)
    } else if !col_extractable(w, InterfaceColumn::Speed) {
        invalid_data_err(e)
    } else if w.if_phys_addr is Err {
        walk_failed_err(e, InterfaceColumn::PhysAddress, w.if_phys_addr->Err_0)
    } else if !col_extractable(w, InterfaceColumn::PhysAddress) {
        invalid_data_err(e)
    } else if w.if_admin_status is Err {
        walk_failed_err(e, InterfaceColumn::AdminStatus, w.if_admin_status->Err_0)
    } else if !col_extractable(w, InterfaceColumn::AdminStatus) {
        invalid_data_err(e)
    } else if w.if_oper_status is Err {
        walk_failed_err(e, InterfaceColumn::OperStatus, w.if_oper_status->Err_0)
    } else if !col_extractable(w, InterfaceColumn::OperStatus) {
        invalid_data_err(e)
    } else if w.if_last_change is Err {
        walk_failed_err(e, InterfaceColumn::LastChange, w.if_last_change->Err_0)
    } else if !col_extractable(w, InterfaceColumn::LastChange) {
        invalid_data_err(e)
    } else if w.if_in_octets is Err {
        walk_failed_err(e, InterfaceColumn::InOctets, w.if_in_octets->Err_0)
    } else if !col_extractable(w, InterfaceColumn::InOctets) {
        invalid_data_err(e)
    } else if w.if_out_octets is Err {
        walk_failed_err(e, InterfaceColumn::OutOctets, w.if_out_octets->Err_0)
    } else if !col_extractable(w, InterfaceColumn::OutOctets) {
        invalid_data_err(e)
    } else {
        false
    }
}

pub open spec fn opt_bytes_view(o: Option<Vec<u8>>) -> Option<Seq<u8>> {
    match o {
        Some(v) => Some(v@),
        None => None,
    }
}

/// One assembled record agrees with its index entry and with what each
/// column holds for its row index; a column without a matching row leaves
/// the field unset.
pub open spec fn interface_ok(w: ColumnWalks, entry: (u32, u32), i: Interface) -> bool {
    &&& i.index == entry.1
    &&& i.description@ == (match lookup_entry(descr_entries(w), entry.0) {
        Some(s) => s,
        None => Seq::<char>::empty(),
    })
    &&& i.interface_type == (match lookup_entry(type_entries(w), entry.0) {
        Some(t) => t,
        None => 0u32,
    })
    &&& i.mtu == lookup_entry(mtu_entries(w), entry.0)
    &&& i.speed == lookup_entry(speed_entries(w), entry.0)
    &&& opt_bytes_view(i.physical_address) == lookup_entry(phys_entries(w), entry.0)
    &&& i.admin_status == (match lookup_entry(admin_entries(w), entry.0) {
        Some(s) => s,
        None => 0u32,
    })
    &&& i.oper_status == (match lookup_entry(oper_entries(w), entry.0) {
        Some(s) => s,
        None => 0u32,
    })
    &&& i.last_change == lookup_entry(last_change_entries(w), entry.0)
    &&& i.in_octets == lookup_entry(in_octets_entries(w), entry.0)
    &&& i.out_octets == lookup_entry(out_octets_entries(w), entry.0)
}

/// The assembled records: one per index entry, in index-column walk order,
/// each populated from the other columns by row index.
pub open spec fn interfaces_ok(w: ColumnWalks, ifs: Seq<Interface>) -> bool {
    &&& ifs.len() == index_entries(w).len()
    &&& forall|k: int|
        0 <= k < ifs.len() ==> interface_ok(w, index_entries(w)[k], #[trigger] ifs[k])
}

/// The index column and every column before `c` in walk order passed: its
/// walk succeeded, it had rows where required, and its row indices could be
/// extracted.
pub open spec fn index_clean(w: ColumnWalks) -> bool {
    &&& w.if_index is Ok
    &&& rows_for(w, InterfaceColumn::Index).len() > 0
    &&& col_extractable(w, InterfaceColumn::Index)
}

pub open spec fn col_clean(w: ColumnWalks, c: InterfaceColumn) -> bool {
    w.outcome_of(c) is Ok && col_extractable(w, c)
}

pub open spec fn clean_before(w: ColumnWalks, c: InterfaceColumn) -> bool {
    match c {
        InterfaceColumn::Index => true,
        InterfaceColumn::Description => index_clean(w),
        InterfaceColumn::Type => index_clean(w) && col_clean(w, InterfaceColumn::Description),
        InterfaceColumn::Mtu => index_clean(w) && col_clean(w, InterfaceColumn::Description)
            && col_clean(w, InterfaceColumn::Type),
        InterfaceColumn::Speed => index_clean(w) && col_clean(w, InterfaceColumn::Description)
            && col_clean(w, InterfaceColumn::Type) && col_clean(w, InterfaceColumn::Mtu),
        InterfaceColumn::PhysAddress => index_clean(w) && col_clean(
            w,
            InterfaceColumn::Description,
        ) && col_clean(w, InterfaceColumn::Type) && col_clean(w, InterfaceColumn::Mtu)
            && col_clean(w, InterfaceColumn::Speed),
        InterfaceColumn::AdminStatus => index_clean(w) && col_clean(
            w,
            InterfaceColumn::Description,
        ) && col_clean(w, InterfaceColumn::Type) && col_clean(w, InterfaceColumn::Mtu)
            && col_clean(w, InterfaceColumn::Speed) && col_clean(w, InterfaceColumn::PhysAddress),
        InterfaceColumn::OperStatus => index_clean(w) && col_clean(w, InterfaceColumn::Description)
            && col_clean(w, InterfaceColumn::Type) && col_clean(w, InterfaceColumn::Mtu)
            && col_clean(w, InterfaceColumn::Speed) && col_clean(w, InterfaceColumn::PhysAddress)
            && col_clean(w, InterfaceColumn::AdminStatus),
        InterfaceColumn::LastChange => index_clean(w) && col_clean(w, InterfaceColumn::Description)
            && col_clean(w, InterfaceColumn::Type) && col_clean(w, InterfaceColumn::Mtu)
            && col_clean(w, InterfaceColumn::Speed) && col_clean(w, InterfaceColumn::PhysAddress)
            && col_clean(w, InterfaceColumn::AdminStatus) && col_clean(
            w,
            InterfaceColumn::OperStatus,
        ),
        InterfaceColumn::InOctets => index_clean(w) && col_clean(w, InterfaceColumn::Description)
            && col_clean(w, InterfaceColumn::Type) && col_clean(w, InterfaceColumn::Mtu)
            && col_clean(w, InterfaceColumn::Speed) && col_clean(w, InterfaceColumn::PhysAddress)
            && col_clean(w, InterfaceColumn::AdminStatus) && col_clean(
            w,
            InterfaceColumn::OperStatus,
        ) && col_clean(w, InterfaceColumn::LastChange),
        InterfaceColumn::OutOctets => index_clean(w) && col_clean(w, InterfaceColumn::Description)
            && col_clean(w, InterfaceColumn::Type) && col_clean(w, InterfaceColumn::Mtu)
            && col_clean(w, InterfaceColumn::Speed) && col_clean(w, InterfaceColumn::PhysAddress)
            && col_clean(w, InterfaceColumn::AdminStatus) && col_clean(
            w,
            InterfaceColumn::OperStatus,
        ) && col_clean(w, InterfaceColumn::LastChange) && col_clean(w, InterfaceColumn::InOctets),
    }
}

/// An index walk with zero rows is `NoInterfaces`, regardless of what the
/// other columns would have returned: such walks never satisfy the success
/// predicate, and the only error the failure predicate admits for them is
/// `NoInterfaces`. Together with the contract of [`assemble_interfaces`],
/// every result on such walks is `Err(NoInterfaces)`.
pub proof fn lemma_empty_index_means_no_interfaces(w: ColumnWalks, e: InterfaceCollectionError)
    requires
        w.if_index is Ok,
        rows_for(w, InterfaceColumn::Index).len() == 0,
    ensures
        !collect_succeeds(w),
        collect_failure(w, e) ==> e is NoInterfaces,
{
}

/// No partial data: when any column's walk failed at the transport level,
/// the success predicate is unsatisfiable, so by the contract of
/// [`assemble_interfaces`] no interface list is returned at all.
pub proof fn lemma_walk_failure_forbids_success(w: ColumnWalks, c: InterfaceColumn)
    requires
        w.outcome_of(c) is Err,
    ensures
        !collect_succeeds(w),
{
    assert(!(w.outcome_of(c) is Ok));
}

/// The failure names the failing column: when every column before `c`
/// passed and `c`'s walk failed with `src`, the only error the failure
/// predicate admits is `WalkFailed` carrying `c`'s OID and `src`.
pub proof fn lemma_walk_failure_names_column(
    w: ColumnWalks,
    c: InterfaceColumn,
    e: InterfaceCollectionError,
    src: SnmpError,
)
    requires
        clean_before(w, c),
        w.outcome_of(c) == Err::<WalkRows, SnmpError>(src),
        collect_failure(w, e),
    ensures
        walk_failed_err(e, c, src),
{
    match c {
        InterfaceColumn::Index => {},
        InterfaceColumn::Description => {},
        InterfaceColumn::Type => {},
        InterfaceColumn::Mtu => {},
        InterfaceColumn::Speed => {},
        InterfaceColumn::PhysAddress => {},
        InterfaceColumn::AdminStatus => {},
        InterfaceColumn::OperStatus => {},
        InterfaceColumn::LastChange => {},
        InterfaceColumn::InOctets => {},
        InterfaceColumn::OutOctets => {},
    }
}

/// Complete walks build complete records: when every walk succeeded, every
/// index row is a usable `Integer` row, and every optional column has a row
/// for every interface index, the collection has exactly one record per
/// index row, in row order — record `k` carrying the decoded value of index
/// row `k` — and every optional field of every record is populated.
pub proof fn lemma_complete_walks_fill_all_fields(w: ColumnWalks, ifs: Seq<Interface>)
    requires
        collect_succeeds(w),
        interfaces_ok(w, ifs),
        forall|k: int|
            0 <= k < rows_for(w, InterfaceColumn::Index).len() ==> (#[trigger] sel_int_u32_fn()(
                rows_for(w, InterfaceColumn::Index)[k].1,
            )) is Some,
        forall|k: int|
            0 <= k < index_entries(w).len() ==> lookup_entry(
                mtu_entries(w),
                (#[trigger] index_entries(w)[k]).0,
            ) is Some,
        forall|k: int|
            0 <= k < index_entries(w).len() ==> lookup_entry(
                speed_entries(w),
                (#[trigger] index_entries(w)[k]).0,
            ) is Some,
        forall|k: int|
            0 <= k < index_entries(w).len() ==> lookup_entry(
                phys_entries(w),
                (#[trigger] index_entries(w)[k]).0,
            ) is Some,
        forall|k: int|
            0 <= k < index_entries(w).len() ==> lookup_entry(
                last_change_entries(w),
                (#[trigger] index_entries(w)[k]).0,
            ) is Some,
        forall|k: int|
            0 <= k < index_entries(w).len() ==> lookup_entry(
                in_octets_entries(w),
                (#[trigger] index_entries(w)[k]).0,
            ) is Some,
        forall|k: int|
            0 <= k < index_entries(w).len() ==> lookup_entry(
                out_octets_entries(w),
                (#[trigger] index_entries(w)[k]).0,
            ) is Some,
    ensures
        ifs.len() == rows_for(w, InterfaceColumn::Index).len(),
        forall|k: int|
            0 <= k < ifs.len() ==> (#[trigger] ifs[k]).index == sel_int_u32(
                rows_for(w, InterfaceColumn::Index)[k].1,
            )->Some_0,
        forall|k: int|
            0 <= k < ifs.len() ==> {
                &&& (#[trigger] ifs[k]).mtu is Some
                &&& ifs[k].speed is Some
                &&& ifs[k].physical_address is Some
                &&& ifs[k].last_change is Some
                &&& ifs[k].in_octets is Some
                &&& ifs[k].out_octets is Some
            },
{
    let rows = rows_for(w, InterfaceColumn::Index);
    assert(col_extractable(w, InterfaceColumn::Index));
    assert forall|k: int|
        0 <= k < rows.len() implies (#[trigger] sel_int_u32_fn()(rows[k].1)) is Some
        && rows[k].0@.len() > 0 by {
        assert(column_extractable(rows, sel_int_u32_fn()));
    }
    lemma_column_entries_full(rows, sel_int_u32_fn());
    assert forall|k: int|
        0 <= k < ifs.len() implies (#[trigger] ifs[k]).index == sel_int_u32(
        rows[k].1,
    )->Some_0 by {
        assert(interface_ok(w, index_entries(w)[k], ifs[k]));
        assert(index_entries(w)[k] == (rows[k].0@.last(), sel_int_u32_fn()(rows[k].1)->Some_0));
        assert(sel_int_u32_fn()(rows[k].1) == sel_int_u32(rows[k].1));
    }
    assert forall|k: int|
        0 <= k < ifs.len() implies {
            &&& (#[trigger] ifs[k]).mtu is Some
            &&& ifs[k].speed is Some
            &&& ifs[k].physical_address is Some
            &&& ifs[k].last_change is Some
            &&& ifs[k].in_octets is Some
            &&& ifs[k].out_octets is Some
        } by {
        assert(interface_ok(w, index_entries(w)[k], ifs[k]));
        assert(opt_bytes_view(ifs[k].physical_address) is Some);
    }
}

/// The `WalkFailed` error for a column.
fn walk_failed(c: InterfaceColumn, source: SnmpError) -> (e: InterfaceCollectionError)
    ensures
        walk_failed_err(e, c, source),
{
    let oid_vec = column_oid(c);
    InterfaceCollectionError::WalkFailed { oid: format_oid(oid_vec.as_slice()), source }
}

/// Joins the walk outcomes of every interface-table column into one
/// `Interface` record per row of the index column.
///
/// All-or-nothing: the first transport failure or unusable instance OID, in
/// column walk order, fails the whole collection, and an index walk with
/// zero rows reports `NoInterfaces` — never an empty success. On success
/// each record carries the decoded value of every column that has a row
/// with its index; columns without one leave the field unset.
#[verifier::loop_isolation(false)]
pub fn assemble_interfaces(walks: ColumnWalks) -> (r: Result<
    Vec<Interface>,
    InterfaceCollectionError,
>)
    ensures
        match r {
            Ok(ifs) => collect_succeeds(walks) && interfaces_ok(walks, ifs@),
            Err(e) => collect_failure(walks, e),
        },
{
    let ColumnWalks {
        if_index,
        if_descr,
        if_type,
        if_mtu,
        if_speed,
        if_phys_addr,
        if_admin_status,
        if_oper_status,
        if_last_change,
        if_in_octets,
        if_out_octets,
    } = walks;

    let index_rows = match if_index {
        Ok(rows) => rows,
        Err(e) => {
            return Err(walk_failed(InterfaceColumn::Index, e));
        },
    };
    if index_rows.len() == 0 {
        return Err(InterfaceCollectionError::NoInterfaces);
    }
    let idx_pairs = match extract_u32_entries(&index_rows) {
        Ok(es) => es,
        Err(e) => {
            return Err(e);
        },
    };

    let descr_rows = match if_descr {
        Ok(rows) => rows,
        Err(e) => {
            return Err(walk_failed(InterfaceColumn::Description, e));
        },
    };
    let descr_es = match extract_string_entries(&descr_rows) {
        Ok(es) => es,
        Err(e) => {
            return Err(e);
        },
    };

    let type_rows = match if_type {
        Ok(rows) => rows,
        Err(e) => {
            return Err(walk_failed(InterfaceColumn::Type, e));
        },
    };
    let type_es = match extract_u32_entries(&type_rows) {
        Ok(es) => es,
        Err(e) => {
            return Err(e);
        },
    };

    let mtu_rows = match if_mtu {
        Ok(rows) => rows,
        Err(e) => {
            return Err(walk_failed(InterfaceColumn::Mtu, e));
        },
    };
    let mtu_es = match extract_i64_entries(&mtu_rows) {
        Ok(es) => es,
        Err(e) => {
            return Err(e);
        },
    };

    let speed_rows = match if_speed {
        Ok(rows) => rows,
        Err(e) => {
            return Err(walk_failed(InterfaceColumn::Speed, e));
        },
    };
    let speed_es = match extract_speed_entries(&speed_rows) {
        Ok(es) => es,
        Err(e) => {
            return Err(e);
        },
    };

    let phys_rows = match if_phys_addr {
        Ok(rows) => rows,
        Err(e) => {
            return Err(walk_failed(InterfaceColumn::PhysAddress, e));
        },
    };
    let phys_es = match extract_bytes_entries(&phys_rows) {
        Ok(es) => es,
        Err(e) => {
            return Err(e);
        },
    };

    let admin_rows = match if_admin_status {
        Ok(rows) => rows,
        Err(e) => {
            return Err(walk_failed(InterfaceColumn::AdminStatus, e));
        },
    };
    let admin_es = match extract_u32_entries(&admin_rows) {
        Ok(es) => es,
        Err(e) => {
            return Err(e);
        },
    };

    let oper_rows = match if_oper_status {
        Ok(rows) => rows,
        Err(e) => {
            return Err(walk_failed(InterfaceColumn::OperStatus, e));
        },
    };
    let oper_es = match extract_u32_entries(&oper_rows) {
        Ok(es) => es,
        Err(e) => {
            return Err(e);
        },
    };

    let last_change_rows = match if_last_change {
        Ok(rows) => rows,
        Err(e) => {
            return Err(walk_failed(InterfaceColumn::LastChange, e));
        },
    };
    let last_change_es = match extract_ticks_entries(&last_change_rows) {
        Ok(es) => es,
        Err(e) => {
            return Err(e);
        },
    };

    let in_octets_rows = match if_in_octets {
        Ok(rows) => rows,
        Err(e) => {
            return Err(walk_failed(InterfaceColumn::InOctets, e));
        },
    };
    let in_octets_es = match extract_u64_entries(&in_octets_rows) {
        Ok(es) => es,
        Err(e) => {
            return Err(e);
        },
    };

    let out_octets_rows = match if_out_octets {
        Ok(rows) => rows,
        Err(e) => {
            return Err(walk_failed(InterfaceColumn::OutOctets, e));
        },
    };
    let out_octets_es = match extract_u64_entries(&out_octets_rows) {
        Ok(es) => es,
        Err(e) => {
            return Err(e);
        },
    };

    proof {
        assert forall|c: InterfaceColumn| (#[trigger] walks.outcome_of(c)) is Ok by {}
        assert forall|c: InterfaceColumn| #[trigger] col_extractable(walks, c) by {}
    }

    let mut ifs: Vec<Interface> = Vec::new();
    let mut k: usize = 0;
    while k < idx_pairs.len()
        invariant
            k <= idx_pairs@.len(),
            ifs@.len() == k,
            forall|j: int|
                0 <= j < k ==> interface_ok(walks, index_entries(walks)[j], #[trigger] ifs@[j]),
        decreases idx_pairs@.len() - k,
    {
        let key = idx_pairs[k].0;
        let ifindex = idx_pairs[k].1;
        let description = match lookup_string(&descr_es, key) {
            Some(s) => s,
            None => String::new(),
        };
        let interface_type = match lookup_u32(&type_es, key) {
            Some(t) => t,
            None => 0,
        };
        let mtu = lookup_i64(&mtu_es, key);
        let speed = lookup_u32(&speed_es, key);
        let physical_address = lookup_bytes(&phys_es, key);
        let admin_status = match lookup_u32(&admin_es, key) {
            Some(s) => s,
            None => 0,
        };
        let oper_status = match lookup_u32(&oper_es, key) {
            Some(s) => s,
            None => 0,
        };
        let last_change = lookup_u32(&last_change_es, key);
        let in_octets = lookup_u64(&in_octets_es, key);
        let out_octets = lookup_u64(&out_octets_es, key);
        let record = Interface {
            index: ifindex,
            description,
            interface_type,
            mtu,
            speed,
            physical_address,
            admin_status,
            oper_status,
            last_change,
            in_octets,
            out_octets,
        };
        proof {
            assert(interface_ok(walks, index_entries(walks)[k as int], record));
        }
        ifs.push(record);
        k = k + 1;
    }
    Ok(ifs)
}

} // verus!
