//! SNMP value decoding and subtree-walk termination logic.
//!
//! The transport proper (UDP sockets, sessions, timeouts) lives outside the
//! library; what reaches this module is already plain data. A response value
//! arrives as a [`WireValue`], the library's model of the wire union, and is
//! decoded 1:1 into the owned [`SnmpValueOwned`]; any shape the design does
//! not enumerate fails loudly instead of defaulting. A GETNEXT walk is driven
//! from outside one response at a time through [`WalkState`], which owns every
//! decision: whether the walk has left the requested subtree, hit end-of-view,
//! stalled on a misbehaving agent, or should continue with the OID just
//! received.

use vstd::prelude::*;

verus! {

/// Owned, thread-safe SNMP value, decoded from the wire. It owns its bytes;
/// nothing borrows from the response buffer.
#[derive(Debug, Clone, PartialEq, Eq)]
pub enum SnmpValueOwned {
    Null,
    Integer(i64),
    OctetString(Vec<u8>),
    ObjectIdentifier(Vec<u32>),
    IpAddress([u8; 4]),
    Counter32(u32),
    Gauge32(u32),
    TimeTicks(u32),
    Opaque(Vec<u8>),
    Counter64(u64),
}

/// Model of the wire value union as plain data. The transport layer converts
/// each response value into this shape before handing it to the library;
/// every wire type outside the enumerated set maps to `Unsupported`.
#[derive(Debug, Clone, PartialEq, Eq)]
pub enum WireValue {
    Null,
    Integer(i64),
    OctetString(Vec<u8>),
    ObjectIdentifier(Vec<u32>),
    IpAddress([u8; 4]),
    Counter32(u32),
    Gauge32(u32),
    TimeTicks(u32),
    Opaque(Vec<u8>),
    Counter64(u64),
    EndOfMibView,
    Unsupported,
}

/// Errors of the SNMP transport and decoding layer.
#[derive(Debug)]
pub enum SnmpError {
    /// Protocol-level failure: the session could not be opened, or the
    /// agent did not answer in time or answered with a protocol error.
    Snmp(String),
    /// I/O failure, e.g. the target address could not be resolved.
    Io(String),
    /// The offloaded blocking call itself failed.
    Join(String),
    /// A GET response answered for a different OID than requested.
    OidMismatch { expected: Vec<u32>, got: Vec<u32> },
    /// A response carried no varbind, or a null value where one was required.
    NoVarBindValue,
    /// A response value is of a wire type the design does not enumerate.
    /// Its own failure kind on purpose: an unsupported value must never
    /// read as absent data.
    UnsupportedType(String),
}

/// What decoding a wire value yields: `None` exactly on the shapes the
/// design does not enumerate.
pub open spec fn decode_spec(w: WireValue) -> Option<SnmpValueOwned> {
    match w {
        WireValue::Null => Some(SnmpValueOwned::Null),
        WireValue::Integer(i) => Some(SnmpValueOwned::Integer(i)),
        WireValue::OctetString(b) => Some(SnmpValueOwned::OctetString(b)),
        WireValue::ObjectIdentifier(o) => Some(SnmpValueOwned::ObjectIdentifier(o)),
        WireValue::IpAddress(ip) => Some(SnmpValueOwned::IpAddress(ip)),
        WireValue::Counter32(c) => Some(SnmpValueOwned::Counter32(c)),
        WireValue::Gauge32(g) => Some(SnmpValueOwned::Gauge32(g)),
        WireValue::TimeTicks(t) => Some(SnmpValueOwned::TimeTicks(t)),
        WireValue::Opaque(o) => Some(SnmpValueOwned::Opaque(o)),
        WireValue::Counter64(c) => Some(SnmpValueOwned::Counter64(c)),
        WireValue::EndOfMibView => None,
        WireValue::Unsupported => None,
    }
}

pub open spec fn unsupported_value_msg() -> Seq<char> {
    "Unhandled SNMP value type"@
}

pub open spec fn stalled_walk_msg() -> Seq<char> {
    "GETNEXT returned the same OID twice"@
}

/// Converts a wire value to its owned form, failing loudly on any type the
/// design does not enumerate.
pub fn to_owned_value(value: WireValue) -> (r: Result<SnmpValueOwned, SnmpError>)
    ensures
        match decode_spec(value) {
            Some(v) => r matches Ok(v2) && v2 == v,
            None => r matches Err(e) && e matches SnmpError::UnsupportedType(m) && m@
                == unsupported_value_msg(),
        },
{
    match value {
        WireValue::Null => Ok(SnmpValueOwned::Null),
        WireValue::Integer(i) => Ok(SnmpValueOwned::Integer(i)),
        WireValue::OctetString(b) => Ok(SnmpValueOwned::OctetString(b)),
        WireValue::ObjectIdentifier(o) => Ok(SnmpValueOwned::ObjectIdentifier(o)),
        WireValue::IpAddress(ip) => Ok(SnmpValueOwned::IpAddress(ip)),
        WireValue::Counter32(c) => Ok(SnmpValueOwned::Counter32(c)),
        WireValue::Gauge32(g) => Ok(SnmpValueOwned::Gauge32(g)),
        WireValue::TimeTicks(t) => Ok(SnmpValueOwned::TimeTicks(t)),
        WireValue::Opaque(o) => Ok(SnmpValueOwned::Opaque(o)),
        WireValue::Counter64(c) => Ok(SnmpValueOwned::Counter64(c)),
        WireValue::EndOfMibView => Err(
            SnmpError::UnsupportedType(String::from_str("Unhandled SNMP value type")),
        ),
        WireValue::Unsupported => Err(
            SnmpError::UnsupportedType(String::from_str("Unhandled SNMP value type")),
        ),
    }
}

/// Decoding is pure: equal wire values always decode to equal owned values,
/// however often the decoding runs.
pub proof fn lemma_decode_deterministic(v1: WireValue, v2: WireValue)
    requires
        v1 == v2,
    ensures
        decode_spec(v1) == decode_spec(v2),
{
}

/// Copies a `u32` vector.
pub(crate) fn copy_u32s(v: &Vec<u32>) -> (r: Vec<u32>)
    ensures
        r@ == v@,
{
    let mut r: Vec<u32> = Vec::new();
    let mut i: usize = 0;
    while i < v.len()
        invariant
            i <= v@.len(),
            r@ == v@.take(i as int),
        decreases v@.len() - i,
    {
        r.push(v[i]);
        proof {
            assert(v@.take(i as int).push(v@[i as int]) =~= v@.take(i as int + 1));
        }
        i = i + 1;
    }
    proof {
        assert(v@.take(v@.len() as int) =~= v@);
    }
    r
}

/// Copies a byte vector.
pub(crate) fn copy_bytes(v: &Vec<u8>) -> (r: Vec<u8>)
    ensures
        r@ == v@,
{
    let mut r: Vec<u8> = Vec::new();
    let mut i: usize = 0;
    while i < v.len()
        invariant
            i <= v@.len(),
            r@ == v@.take(i as int),
        decreases v@.len() - i,
    {
        r.push(v[i]);
        proof {
            assert(v@.take(i as int).push(v@[i as int]) =~= v@.take(i as int + 1));
        }
        i = i + 1;
    }
    proof {
        assert(v@.take(v@.len() as int) =~= v@);
    }
    r
}

/// Whole-sequence equality of two OIDs.
pub fn oids_equal(a: &Vec<u32>, b: &Vec<u32>) -> (r: bool)
    ensures
        r == (a@ == b@),
{
    if a.len() != b.len() {
        return false;
    }
    let mut i: usize = 0;
    while i < a.len()
        invariant
            i <= a@.len(),
            a@.len() == b@.len(),
            forall|k: int| 0 <= k < i ==> a@[k] == b@[k],
        decreases a@.len() - i,
    {
        if a[i] != b[i] {
            return false;
        }
        i = i + 1;
    }
    proof {
        assert(a@ =~= b@);
    }
    true
}

/// One OID is a prefix of another.
pub open spec fn is_oid_prefix(p: Seq<u32>, s: Seq<u32>) -> bool {
    p.len() <= s.len() && s.take(p.len() as int) == p
}

pub fn oid_starts_with(p: &Vec<u32>, s: &Vec<u32>) -> (r: bool)
    ensures
        r == is_oid_prefix(p@, s@),
{
    if p.len() > s.len() {
        return false;
    }
    let mut i: usize = 0;
    while i < p.len()
        invariant
            i <= p@.len(),
            p@.len() <= s@.len(),
            forall|k: int| 0 <= k < i ==> p@[k] == s@[k],
        decreases p@.len() - i,
    {
        if p[i] != s[i] {
            proof {
                assert(s@.take(p@.len() as int)[i as int] == s@[i as int]);
            }
            return false;
        }
        i = i + 1;
    }
    proof {
        assert(s@.take(p@.len() as int) =~= p@);
    }
    true
}

/// One row of a walk result: the instance OID and its decoded value.
pub type WalkRow = (Vec<u32>, SnmpValueOwned);

/// Ordered walk result, in the order the agent returned the rows.
pub type WalkRows = Vec<WalkRow>;

/// State of one GETNEXT subtree walk. The caller issues the socket
/// round-trips; every decision about the response — continue, stop, or
/// abort — is made here, one [`WalkState::step`] per response.
pub struct WalkState {
    /// The column OID whose subtree is being walked.
    pub base_oid: Vec<u32>,
    /// The OID the next GETNEXT request must name: exactly the OID last
    /// received (standard GETNEXT chaining), initially the base itself.
    pub current_oid: Vec<u32>,
    /// Rows accepted so far.
    pub rows: WalkRows,
    /// Whether the walk has terminated.
    pub finished: bool,
}

impl WalkState {
    /// Every accepted row lies in the requested subtree, and so does the
    /// next request OID.
    pub open spec fn wf(self) -> bool {
        &&& is_oid_prefix(self.base_oid@, self.current_oid@)
        &&& forall|k: int|
            0 <= k < self.rows@.len() ==> is_oid_prefix(
                self.base_oid@,
                (#[trigger] self.rows@[k]).0@,
            )
    }

    /// Starts a walk at `base_oid`.
    pub fn new(base_oid: Vec<u32>) -> (s: Self)
        ensures
            s.base_oid@ == base_oid@,
            s.current_oid@ == base_oid@,
            s.rows@.len() == 0,
            !s.finished,
            s.wf(),
    {
        let current_oid = copy_u32s(&base_oid);
        proof {
            assert(base_oid@.take(base_oid@.len() as int) =~= base_oid@);
        }
        WalkState { base_oid, current_oid, rows: Vec::new(), finished: false }
    }

    /// Feeds the first varbind of one GETNEXT response into the walk.
    ///
    /// Returns `Ok(true)` to continue with `current_oid`, `Ok(false)` on
    /// normal termination (the response left the requested subtree, or the
    /// agent signalled end-of-view), and an error when the value cannot be
    /// decoded or the agent returned the OID it was asked from — the
    /// defensive guard against a non-conformant agent that would otherwise
    /// make the walk loop forever.
    pub fn step(&mut self, response_oid: Vec<u32>, value: WireValue) -> (r: Result<
        bool,
        SnmpError,
    >)
        requires
            old(self).wf(),
            !old(self).finished,
        ensures
            final(self).wf(),
            final(self).base_oid@ == old(self).base_oid@,
            ({
                let base = old(self).base_oid@;
                if !is_oid_prefix(base, response_oid@) {
                    &&& r matches Ok(cont) && cont == false
                    &&& final(self).rows@ == old(self).rows@
                    &&& final(self).finished
                } else if (value matches WireValue::EndOfMibView) {
                    &&& r matches Ok(cont) && cont == false
                    &&& final(self).rows@ == old(self).rows@
                    &&& final(self).finished
                } else if response_oid@ == old(self).current_oid@ {
                    &&& r matches Err(e) && e matches SnmpError::Snmp(m) && m@
                        == stalled_walk_msg()
                    &&& final(self).rows@ == old(self).rows@
                    &&& final(self).finished
                } else {
                    match decode_spec(value) {
                        Some(v) => {
                            &&& r matches Ok(cont) && cont == true
                            &&& final(self).rows@ == old(self).rows@.push((response_oid, v))
                            &&& final(self).current_oid@ == response_oid@
                            &&& !final(self).finished
                        },
                        None => {
                            &&& r matches Err(e) && e matches SnmpError::UnsupportedType(m) && m@
                                == unsupported_value_msg()
                            &&& final(self).rows@ == old(self).rows@
                            &&& final(self).finished
                        },
                    }
                }
            }),
    {
        if !oid_starts_with(&self.base_oid, &response_oid) {
            self.finished = true;
            return Ok(false);
        }
        if matches!(value, WireValue::EndOfMibView) {
            self.finished = true;
            return Ok(false);
        }
        if oids_equal(&response_oid, &self.current_oid) {
            self.finished = true;
            return Err(SnmpError::Snmp(String::from_str("GETNEXT returned the same OID twice")));
        }
        match to_owned_value(value) {
            Ok(v) => {
                self.current_oid = copy_u32s(&response_oid);
                self.rows.push((response_oid, v));
                Ok(true)
            },
            Err(e) => {
                self.finished = true;
                Err(e)
            },
        }
    }

    /// Ends the walk on an empty varbind list: no more results, and zero
    /// results overall if the list was empty on the very first response.
    pub fn finish(&mut self)
        ensures
            *final(self) == (WalkState { finished: true, ..*old(self) }),
    {
        self.finished = true;
    }

    /// Hands the accumulated rows out.
    pub fn into_rows(self) -> (r: WalkRows)
        ensures
            r == self.rows,
    {
        self.rows
    }
}

/// Validates and decodes the varbind list of one GET response against the
/// requested OID: there must be a varbind, it must answer for exactly the
/// requested OID, and its value must be non-null and decodable. A value of
/// an unenumerated wire type fails as [`SnmpError::UnsupportedType`], never
/// as an empty response: absent data and undecodable data are different
/// failures.
pub fn process_get_response(requested: &Vec<u32>, varbinds: Vec<(Vec<u32>, WireValue)>) -> (r:
    Result<SnmpValueOwned, SnmpError>)
    ensures
        ({
            if varbinds@.len() == 0 {
                r matches Err(e) && e matches SnmpError::NoVarBindValue
            } else {
                let vb = varbinds@[0];
                if vb.0@ != requested@ {
                    r matches Err(e) && (e matches SnmpError::OidMismatch { expected, got }
                        && expected@ == requested@ && got@ == vb.0@)
                } else if (vb.1 matches WireValue::Null) {
                    r matches Err(e) && e matches SnmpError::NoVarBindValue
                } else {
                    match decode_spec(vb.1) {
                        Some(v) => r matches Ok(v2) && v2 == v,
                        None => r matches Err(e) && e matches SnmpError::UnsupportedType(m) && m@
                            == unsupported_value_msg(),
                    }
                }
            }
        }),
{
    let mut varbinds = varbinds;
    if varbinds.len() == 0 {
        return Err(SnmpError::NoVarBindValue);
    }
    let (oid, value) = varbinds.remove(0);
    if !oids_equal(&oid, requested) {
        return Err(SnmpError::OidMismatch { expected: copy_u32s(requested), got: oid });
    }
    if matches!(value, WireValue::Null) {
        return Err(SnmpError::NoVarBindValue);
    }
    to_owned_value(value)
}

} // verus!
