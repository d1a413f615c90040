//! The watchdog (WDOG) side of the diagnostics: the configuration snapshot
//! taken at boot, the record that holds it beside the reset tally, and the
//! refresh sequence.
//!
//! K20 RM §23.3.2: the WDOG must be unlocked within WCT (256 bus clock cycles)
//! of a system reset, failing which it resets the system. Firmware that never
//! unlocks it therefore reset-loops standalone; under a debugger the rule is
//! suspended. The snapshot shows how the hardware left the WDOG at each boot.
use vstd::prelude::*;
use crate::reset_record::{ResetRecord, DIAG_MAGIC};

verus! {

/// First word of the WDOG refresh sequence, written to REFRESH.
pub const REFRESH_KEY_FIRST: u16 = 0xA602;

/// Second word of the WDOG refresh sequence, written right after the first.
pub const REFRESH_KEY_SECOND: u16 = 0xB480;

/// The 16-bit WDOG registers as read at boot.
#[derive(Clone, Copy, Debug, PartialEq, Eq)]
pub struct WdogRegisters {
    /// STCTRLH: bit 0 WDOGEN, bit 1 CLKSRC, bit 3 WINEN, bit 4 ALLOWUPDATE,
    /// bit 5 DBGEN.
    pub stctrlh: u16,
    pub tovalh: u16,
    pub tovall: u16,
    pub winh: u16,
    pub winl: u16,
}

/// The WDOG configuration as stored in the record: STCTRLH widened, and the
/// timeout (TOVALH:TOVALL) and window (WINH:WINL) as 32-bit values.
#[derive(Clone, Copy, Debug, PartialEq, Eq)]
pub struct WdogConfig {
    pub stctrlh: u32,
    pub toval: u32,
    pub win: u32,
}

/// The 32-bit value whose high half is `high` and low half is `low`.
pub open spec fn joined(high: u16, low: u16) -> int {
    high * 0x1_0000 + low
}

/// Joins the two 16-bit halves of a WDOG value into one word.
pub fn join_halves(high: u16, low: u16) -> (word: u32)
    ensures
        word == joined(high, low),
        word / 0x1_0000 == high,
        word % 0x1_0000 == low,
{
    let h = high as u32;
    let l = low as u32;
    assert((h << 16u32) | l == h * 0x1_0000 + l) by (bit_vector)
        requires
            h < 0x1_0000,
            l < 0x1_0000,
    ;
    (h << 16u32) | l
}

impl WdogConfig {
    /// The configuration that `regs` describe.
    pub open spec fn of(regs: WdogRegisters) -> WdogConfig {
        WdogConfig {
            stctrlh: regs.stctrlh as u32,
            toval: joined(regs.tovalh, regs.tovall) as u32,
            win: joined(regs.winh, regs.winl) as u32,
        }
    }

    /// Builds the stored configuration from the registers as read.
    pub fn capture(regs: WdogRegisters) -> (config: WdogConfig)
        ensures
            config == WdogConfig::of(regs),
            config.stctrlh == regs.stctrlh as u32,
            config.toval == regs.tovalh as int * 0x1_0000 + regs.tovall as int,
            config.win == regs.winh as int * 0x1_0000 + regs.winl as int,
            config.toval / 0x1_0000 == regs.tovalh,
            config.toval % 0x1_0000 == regs.tovall,
            config.win / 0x1_0000 == regs.winh,
            config.win % 0x1_0000 == regs.winl,
    {
        WdogConfig {
            stctrlh: regs.stctrlh as u32,
            toval: join_halves(regs.tovalh, regs.tovall),
            win: join_halves(regs.winh, regs.winl),
        }
    }
}

/// The stored configuration keeps every register as read: STCTRLH with all its
/// bits (a set WINEN stays set), and the timeout and window each with both
/// halves, the high half on top, so that each half can be read back from the
/// stored word.
pub proof fn lemma_config_keeps_registers(regs: WdogRegisters)
    ensures
        WdogConfig::of(regs).stctrlh == regs.stctrlh as u32,
        forall|i: u32| i < 16 ==> (crate::bits::bit_set(WdogConfig::of(regs).stctrlh, i)
            <==> (regs.stctrlh >> i) & 1 == 1),
        WdogConfig::of(regs).toval / 0x1_0000 == regs.tovalh,
        WdogConfig::of(regs).toval % 0x1_0000 == regs.tovall,
        WdogConfig::of(regs).win / 0x1_0000 == regs.winh,
        WdogConfig::of(regs).win % 0x1_0000 == regs.winl,
{
    let c = WdogConfig::of(regs);
    let s = regs.stctrlh;
    assert forall|i: u32| i < 16 implies (crate::bits::bit_set(c.stctrlh, i) <==> (s >> i) & 1 == 1) by {
        assert(((s as u32) >> i) & 1 == 1 <==> (s >> i) & 1 == 1) by (bit_vector)
            requires
                i < 16,
        ;
    }
}

/// The post-mortem record of the watchdog-refresh firmware: the reset tally
/// (magic `DIAG_MAGIC`) followed by the WDOG configuration found at boot.
#[derive(Clone, Copy, Debug, PartialEq, Eq)]
pub struct WdogDiag {
    pub record: ResetRecord,
    pub config: WdogConfig,
}

impl WdogDiag {
    /// Records one boot: the reset tally as `ResetRecord::record_boot` keeps it
    /// under `DIAG_MAGIC`, and the WDOG configuration of this boot in place of
    /// the last one.
    pub fn record_boot(&mut self, srs0: u8, srs1: u8, regs: WdogRegisters)
        ensures
            final(self).record == old(self).record.after_boot(DIAG_MAGIC, srs0, srs1),
            final(self).record.magic == DIAG_MAGIC,
            final(self).record.srs0 == srs0 as u32,
            final(self).record.srs1 == srs1 as u32,
            old(self).record.magic != DIAG_MAGIC ==> final(self).record.resets == 1,
            old(self).record.magic != DIAG_MAGIC ==> final(self).record.srs0_seen == srs0 as u32,
            old(self).record.magic != DIAG_MAGIC ==> final(self).record.srs1_seen == srs1 as u32,
            old(self).record.magic == DIAG_MAGIC ==> final(self).record.srs0_seen
                == old(self).record.srs0_seen | (srs0 as u32),
            old(self).record.magic == DIAG_MAGIC ==> final(self).record.srs1_seen
                == old(self).record.srs1_seen | (srs1 as u32),
            final(self).config == WdogConfig::of(regs),
            final(self).config.stctrlh == regs.stctrlh as u32,
            final(self).config.toval == regs.tovalh as int * 0x1_0000 + regs.tovall as int,
            final(self).config.win == regs.winh as int * 0x1_0000 + regs.winl as int,
    {
        self.record.record_boot(DIAG_MAGIC, srs0, srs1);
        let ghost s0 = srs0 as u32;
        let ghost s1 = srs1 as u32;
        assert(0u32 | s0 == s0) by (bit_vector);
        assert(0u32 | s1 == s1) by (bit_vector);
        self.config = WdogConfig::capture(regs);
    }
}

} // verus!
