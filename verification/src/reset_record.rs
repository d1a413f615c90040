//! The reset-source record that firmware keeps in `.uninit` RAM.
//!
//! Startup does not zero `.uninit` and a reset does not clear it, so a chip that
//! resets several times a second can tally for itself why each boot happened;
//! the host collects the tally afterwards over SWD. The record starts with a
//! magic word: while it is absent the contents are power-on garbage and the
//! record is started clean.
use vstd::prelude::*;
use crate::bits::{bit_set, lemma_bit_set_or, lemma_bit_set_zero};
use crate::counter::word_modulus;

verus! {

/// Magic word of the record kept by the WCT reproduction firmware ("RSTS").
pub const RESET_MAGIC: u32 = 0x5253_5453;

/// Magic word of the record kept by the watchdog-refresh firmware ("WDGD").
pub const DIAG_MAGIC: u32 = 0x5744_4744;

/// The reset-source part of the record, field for field as it lies in RAM.
///
/// `srs0` and `srs1` are the RCM System Reset Status registers latched for the
/// most recent reset (SRS0: bit 7 POR, bit 6 external pin, bit 5 WDOG, bit 3 LOL,
/// bit 2 LOC, bit 1 LVD, bit 0 wakeup; SRS1: bit 1 LOCKUP, bit 2 SW
/// (SYSRESETREQ), bit 3 MDM-AP). `srs0_seen` and `srs1_seen` are the bitwise OR
/// of every value seen since the record was started, so a single read shows
/// every source that was hit.
#[derive(Clone, Copy, Debug, PartialEq, Eq)]
pub struct ResetRecord {
    pub magic: u32,
    pub resets: u32,
    pub srs0: u32,
    pub srs1: u32,
    pub srs0_seen: u32,
    pub srs1_seen: u32,
}

/// The status latched by the RCM for one reset: (SRS0, SRS1).
pub type ResetSources = (u8, u8);

impl ResetRecord {
    /// The record carries `magic`, so its contents are a tally and not garbage.
    pub open spec fn is_started(self, magic: u32) -> bool {
        self.magic == magic
    }

    /// The record as a boot finds it once the magic check is done: unchanged if
    /// it was started with `magic`, else started clean (magic written, counter
    /// and the two accumulated masks zeroed; the last-reset fields are about to
    /// be overwritten anyway).
    pub open spec fn checked(self, magic: u32) -> ResetRecord {
        if self.is_started(magic) {
            self
        } else {
            ResetRecord { magic, resets: 0, srs0_seen: 0, srs1_seen: 0, ..self }
        }
    }

    /// The record after one boot that found the reset status `srs0`, `srs1`.
    pub open spec fn after_boot(self, magic: u32, srs0: u8, srs1: u8) -> ResetRecord {
        let base = self.checked(magic);
        ResetRecord {
            magic,
            resets: ((base.resets + 1) % word_modulus()) as u32,
            srs0: srs0 as u32,
            srs1: srs1 as u32,
            srs0_seen: base.srs0_seen | (srs0 as u32),
            srs1_seen: base.srs1_seen | (srs1 as u32),
        }
    }

    /// The record after a run of boots, oldest first.
    pub open spec fn after_boots(self, magic: u32, boots: Seq<ResetSources>) -> ResetRecord
        decreases boots.len(),
    {
        if boots.len() == 0 {
            self
        } else {
            let last = boots.last();
            self.after_boots(magic, boots.drop_last()).after_boot(magic, last.0, last.1)
        }
    }

    /// Records one boot: starts the record clean if it does not carry `magic`,
    /// counts the reset (wrapping), stores the latched status of this reset and
    /// ORs it into the accumulated masks.
    pub fn record_boot(&mut self, magic: u32, srs0: u8, srs1: u8)
        ensures
            *final(self) == old(self).after_boot(magic, srs0, srs1),
    {
        if self.magic != magic {
            self.magic = magic;
            self.resets = 0;
            self.srs0_seen = 0;
            self.srs1_seen = 0;
        }
        self.resets = self.resets.wrapping_add(1);
        let s0 = srs0 as u32;
        let s1 = srs1 as u32;
        self.srs0 = s0;
        self.srs1 = s1;
        self.srs0_seen = self.srs0_seen | s0;
        self.srs1_seen = self.srs1_seen | s1;
        assert(0u32 | s0 == s0) by (bit_vector);
        assert(0u32 | s1 == s1) by (bit_vector);
    }
}

/// The OR of a run of status bytes.
pub open spec fn union_of(values: Seq<u8>) -> u32
    decreases values.len(),
{
    if values.len() == 0 {
        0
    } else {
        union_of(values.drop_last()) | (values.last() as u32)
    }
}

/// The SRS0 bytes of a run of boots.
pub open spec fn srs0_of(boots: Seq<ResetSources>) -> Seq<u8> {
    boots.map_values(|b: ResetSources| b.0)
}

/// The SRS1 bytes of a run of boots.
pub open spec fn srs1_of(boots: Seq<ResetSources>) -> Seq<u8> {
    boots.map_values(|b: ResetSources| b.1)
}

proof fn lemma_or_assoc(a: u32, b: u32, c: u32)
    ensures
        (a | b) | c == a | (b | c),
        a | (0u32 | c) == a | c,
{
    assert((a | b) | c == a | (b | c)) by (bit_vector);
    assert(a | (0u32 | c) == a | c) by (bit_vector);
}

/// A run of boots leaves the record started with `magic`; it counts the boots
/// on top of the count it found (from zero when the record had to be started
/// clean), wrapping at 2^32; it holds the status of the last boot; and each
/// accumulated mask is the mask it found (zero when started clean) ORed with
/// the status of every boot of the run.
pub proof fn lemma_after_boots(rec: ResetRecord, magic: u32, boots: Seq<ResetSources>)
    requires
        boots.len() > 0,
    ensures
        ({
            let r = rec.after_boots(magic, boots);
            let base = rec.checked(magic);
            &&& r.is_started(magic)
            &&& r.resets == (base.resets + boots.len()) % word_modulus()
            &&& r.srs0 == boots.last().0 as u32
            &&& r.srs1 == boots.last().1 as u32
            &&& r.srs0_seen == base.srs0_seen | union_of(srs0_of(boots))
            &&& r.srs1_seen == base.srs1_seen | union_of(srs1_of(boots))
        }),
    decreases boots.len(),
{
    let last = boots.last();
    let base = rec.checked(magic);
    let front = boots.drop_last();
    assert(srs0_of(boots).drop_last() =~= srs0_of(front));
    assert(srs1_of(boots).drop_last() =~= srs1_of(front));
    assert(srs0_of(boots).last() == last.0);
    assert(srs1_of(boots).last() == last.1);
    assert(union_of(srs0_of(boots)) == union_of(srs0_of(front)) | (last.0 as u32));
    assert(union_of(srs1_of(boots)) == union_of(srs1_of(front)) | (last.1 as u32));
    if boots.len() == 1 {
        assert(front.len() == 0);
        assert(rec.after_boots(magic, front) == rec);
        assert(union_of(srs0_of(front)) == 0);
        assert(union_of(srs1_of(front)) == 0);
        lemma_or_assoc(base.srs0_seen, 0, last.0 as u32);
        lemma_or_assoc(base.srs1_seen, 0, last.1 as u32);
    } else {
        lemma_after_boots(rec, magic, front);
        let prev = rec.after_boots(magic, front);
        assert(prev.checked(magic) == prev);
        lemma_or_assoc(base.srs0_seen, union_of(srs0_of(front)), last.0 as u32);
        lemma_or_assoc(base.srs1_seen, union_of(srs1_of(front)), last.1 as u32);
        let m = word_modulus();
        vstd::arithmetic::div_mod::lemma_add_mod_noop(base.resets + front.len(), 1, m);
        assert(((base.resets + front.len()) % m + 1) % m == (base.resets + boots.len()) % m);
    }
}

/// Bit `i` of the OR of a run of bytes is set exactly when it is set in one of
/// them.
pub proof fn lemma_union_bit(values: Seq<u8>, i: u32)
    requires
        i < 32,
    ensures
        bit_set(union_of(values), i) <==> exists|j: int|
            0 <= j < values.len() && #[trigger] bit_set(values[j] as u32, i),
    decreases values.len(),
{
    if values.len() == 0 {
        lemma_bit_set_zero(i);
    } else {
        let front = values.drop_last();
        lemma_union_bit(front, i);
        lemma_bit_set_or(union_of(front), values.last() as u32, i);
        if bit_set(union_of(values), i) {
            if bit_set(union_of(front), i) {
                let j = choose|j: int| 0 <= j < front.len() && #[trigger] bit_set(front[j] as u32, i);
                assert(values[j] == front[j]);
            } else {
                assert(bit_set(values[values.len() - 1] as u32, i));
            }
        } else {
            assert forall|j: int| 0 <= j < values.len() implies !#[trigger] bit_set(values[j] as u32, i) by {
                if j < values.len() - 1 {
                    assert(values[j] == front[j]);
                }
            }
        }
    }
}

/// The record answers the question it is kept for: after a run of boots that
/// began on a record not started with `magic` (power-on garbage, or a record
/// of other firmware), bit `i` of an accumulated mask is set exactly when some
/// boot of the run found that reset source latched, and the counter holds the
/// number of boots, modulo 2^32.
pub proof fn lemma_seen_names_every_source(
    rec: ResetRecord,
    magic: u32,
    boots: Seq<ResetSources>,
    i: u32,
)
    requires
        !rec.is_started(magic),
        boots.len() > 0,
        i < 32,
    ensures
        rec.after_boots(magic, boots).resets == (boots.len() as int) % word_modulus(),
        bit_set(rec.after_boots(magic, boots).srs0_seen, i) <==> exists|j: int|
            0 <= j < boots.len() && #[trigger] bit_set(boots[j].0 as u32, i),
        bit_set(rec.after_boots(magic, boots).srs1_seen, i) <==> exists|j: int|
            0 <= j < boots.len() && #[trigger] bit_set(boots[j].1 as u32, i),
{
    lemma_after_boots(rec, magic, boots);
    let r = rec.after_boots(magic, boots);
    let u0 = union_of(srs0_of(boots));
    let u1 = union_of(srs1_of(boots));
    assert(0u32 | u0 == u0) by (bit_vector);
    assert(0u32 | u1 == u1) by (bit_vector);
    lemma_union_bit(srs0_of(boots), i);
    lemma_union_bit(srs1_of(boots), i);
    if bit_set(r.srs0_seen, i) {
        let j = choose|j: int| 0 <= j < srs0_of(boots).len() && #[trigger] bit_set(srs0_of(boots)[j] as u32, i);
        assert(bit_set(boots[j].0 as u32, i));
    } else {
        assert forall|j: int| 0 <= j < boots.len() implies !#[trigger] bit_set(boots[j].0 as u32, i) by {
            assert(srs0_of(boots)[j] == boots[j].0);
        }
    }
    if bit_set(r.srs1_seen, i) {
        let j = choose|j: int| 0 <= j < srs1_of(boots).len() && #[trigger] bit_set(srs1_of(boots)[j] as u32, i);
        assert(bit_set(boots[j].1 as u32, i));
    } else {
        assert forall|j: int| 0 <= j < boots.len() implies !#[trigger] bit_set(boots[j].1 as u32, i) by {
            assert(srs1_of(boots)[j] == boots[j].1);
        }
    }
}

/// On a started record a boot only adds to the accumulated masks: a reset
/// source once seen stays seen.
pub proof fn lemma_seen_only_grows(rec: ResetRecord, magic: u32, srs0: u8, srs1: u8, i: u32)
    requires
        rec.is_started(magic),
        i < 32,
    ensures
        bit_set(rec.srs0_seen, i) ==> bit_set(rec.after_boot(magic, srs0, srs1).srs0_seen, i),
        bit_set(rec.srs1_seen, i) ==> bit_set(rec.after_boot(magic, srs0, srs1).srs1_seen, i),
        bit_set(srs0 as u32, i) ==> bit_set(rec.after_boot(magic, srs0, srs1).srs0_seen, i),
        bit_set(srs1 as u32, i) ==> bit_set(rec.after_boot(magic, srs0, srs1).srs1_seen, i),
{
    lemma_bit_set_or(rec.srs0_seen, srs0 as u32, i);
    lemma_bit_set_or(rec.srs1_seen, srs1 as u32, i);
}

} // verus!
