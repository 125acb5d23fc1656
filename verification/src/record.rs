//! Connection records: the identity key and the measurements of one
//! observed network flow, as the capture subsystem hands them over.
//!
//! Text metadata (application protocol, domain, country, administrative
//! entity) is kept as bytes of the already-normalized display string; a
//! field that has not been resolved yet is the empty string.

use vstd::prelude::*;

verus! {

/// Identity of one connection: endpoints and transport protocol.
///
/// Addresses are kept in their 128-bit numeric form (IPv4 addresses use
/// the low 32 bits), so the key is a plain tuple of integers with an
/// obvious total order, used as the deterministic sort tie-break.
#[derive(Clone, Copy, PartialEq, Eq, Structural, Debug, Hash)]
pub struct ConnectionKey {
    pub src_addr: u128,
    pub src_port: u16,
    pub dst_addr: u128,
    pub dst_port: u16,
    /// Transport protocol number (6 = TCP, 17 = UDP, ...).
    pub protocol: u8,
}

/// Mathematical model of a connection record: the key plus plain values
/// and byte sequences for every field the query engine reads.
#[verifier::ext_equal]
pub struct RecordModel {
    pub key: ConnectionKey,
    pub bytes: u128,
    pub packets: u64,
    pub last_seen: u64,
    pub favorite: bool,
    pub outgoing: bool,
    pub app: Seq<u8>,
    pub domain: Seq<u8>,
    pub country: Seq<u8>,
    pub as_name: Seq<u8>,
}

/// One observed connection: identity key plus the latest measurements
/// and resolved metadata attached by the enrichment stage.
pub struct ConnectionRecord {
    pub key: ConnectionKey,
    /// Total bytes transferred.
    pub bytes: u128,
    /// Total packets transferred.
    pub packets: u64,
    /// Timestamp of the most recent activity.
    pub last_seen: u64,
    /// Whether the user marked this connection as a favorite.
    pub favorite: bool,
    /// Traffic direction: true for outgoing.
    pub outgoing: bool,
    /// Resolved application-layer protocol name; empty if unresolved.
    pub app: Vec<u8>,
    /// Resolved domain name; empty if unresolved.
    pub domain: Vec<u8>,
    /// Resolved country code; empty if unresolved.
    pub country: Vec<u8>,
    /// Resolved administrative entity / AS name; empty if unresolved.
    pub as_name: Vec<u8>,
}

impl View for ConnectionRecord {
    type V = RecordModel;

    open spec fn view(&self) -> RecordModel {
        RecordModel {
            key: self.key,
            bytes: self.bytes,
            packets: self.packets,
            last_seen: self.last_seen,
            favorite: self.favorite,
            outgoing: self.outgoing,
            app: self.app@,
            domain: self.domain@,
            country: self.country@,
            as_name: self.as_name@,
        }
    }
}

/// The models of a sequence of records, element by element.
pub open spec fn models_of(s: Seq<ConnectionRecord>) -> Seq<RecordModel> {
    s.map_values(|r: ConnectionRecord| r@)
}

/// A snapshot is well formed when identity keys are pairwise distinct:
/// the record store is keyed by connection identity, so one snapshot
/// never carries two records of the same connection.
pub open spec fn distinct_keys(s: Seq<RecordModel>) -> bool {
    forall|i: int, j: int|
        0 <= i < s.len() && 0 <= j < s.len() && i != j ==> (#[trigger] s[i]).key != (#[trigger] s[j]).key
}

/// Byte-for-byte copy of a byte vector.
pub fn copy_bytes(v: &Vec<u8>) -> (out: Vec<u8>)
    ensures
        out@ == v@,
{
    let mut out: Vec<u8> = Vec::new();
    let mut i: usize = 0;
    while i < v.len()
        invariant
            i <= v.len(),
            out@ == v@.subrange(0, i as int),
        decreases v.len() - i,
    {
        out.push(v[i]);
        proof {
            assert(out@ =~= v@.subrange(0, i + 1 as int));
        }
        i = i + 1;
    }
    proof {
        assert(out@ =~= v@);
    }
    out
}

impl ConnectionRecord {
    /// A copy of this record with the same model.
    pub fn duplicate(&self) -> (out: ConnectionRecord)
        ensures
            out@ == self@,
    {
        let out = ConnectionRecord {
            key: self.key,
            bytes: self.bytes,
            packets: self.packets,
            last_seen: self.last_seen,
            favorite: self.favorite,
            outgoing: self.outgoing,
            app: copy_bytes(&self.app),
            domain: copy_bytes(&self.domain),
            country: copy_bytes(&self.country),
            as_name: copy_bytes(&self.as_name),
        };
        proof {
            assert(out@ =~= self@);
        }
        out
    }
}

/// Model-preserving copy of a vector of records.
pub fn copy_records(v: &Vec<ConnectionRecord>) -> (out: Vec<ConnectionRecord>)
    ensures
        models_of(out@) == models_of(v@),
{
    let mut out: Vec<ConnectionRecord> = Vec::new();
    let mut i: usize = 0;
    proof {
        assert(models_of(out@) =~= models_of(v@).subrange(0, 0));
    }
    while i < v.len()
        invariant
            i <= v@.len(),
            models_of(out@) == models_of(v@).subrange(0, i as int),
        decreases v@.len() - i,
    {
        let ghost prev = models_of(out@);
        out.push(v[i].duplicate());
        proof {
            assert(models_of(out@) =~= prev.push(v@[i as int]@));
            assert(models_of(v@).subrange(0, i + 1 as int) =~= models_of(v@).subrange(
                0,
                i as int,
            ).push(models_of(v@)[i as int]));
        }
        i = i + 1;
    }
    proof {
        assert(models_of(v@).subrange(0, v@.len() as int) =~= models_of(v@));
    }
    out
}

} // verus!
