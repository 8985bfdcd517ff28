//! Undoing the system-volume change each pairing-button press causes: the
//! volume and mute state are snapshotted while idle and put back shortly
//! after every press, and the volume overlay is kept hidden for as long as
//! the app runs. Reading and setting the volume, and finding the overlay
//! window, are the caller's part.
use vstd::prelude::*;

verus! {

/// How often the idle snapshot is taken, in milliseconds.
pub const SNAPSHOT_INTERVAL_MS: u64 = 200;
/// How long after a press the snapshot is put back, in milliseconds.
pub const RESTORE_DELAY_MS: u64 = 150;
/// How often the overlay is hidden, in milliseconds.
pub const SUPPRESS_INTERVAL_MS: u64 = 40;

/// The guard's state.
pub struct VolumeGuard {
    /// Bit pattern of the last known-good volume level (a scalar in 0..=1).
    pub level_bits: u32,
    pub muted: bool,
    /// A restore is pending: the snapshot must not take the changed value.
    pub restoring: bool,
    /// The overlay is being kept hidden.
    pub suppressing: bool,
}

impl VolumeGuard {
    /// Nothing snapshotted, overlay suppression on.
    pub fn new() -> (g: VolumeGuard)
        ensures
            g.level_bits == 0,
            !g.muted,
            !g.restoring,
            g.suppressing,
    {
        VolumeGuard { level_bits: 0, muted: false, restoring: false, suppressing: true }
    }

    /// One idle reading of the volume (`None` where a reading failed): kept
    /// unless a restore is pending.
    pub fn on_snapshot(&mut self, level_bits: Option<u32>, muted: Option<bool>)
        ensures
            final(self).level_bits == (match level_bits {
                Some(b) if !old(self).restoring => b,
                _ => old(self).level_bits,
            }),
            final(self).muted == (match muted {
                Some(m) if !old(self).restoring => m,
                _ => old(self).muted,
            }),
            final(self).restoring == old(self).restoring,
            final(self).suppressing == old(self).suppressing,
    {
        if !self.restoring {
            match level_bits {
                Some(b) => {
                    self.level_bits = b;
                },
                None => {},
            }
            match muted {
                Some(m) => {
                    self.muted = m;
                },
                None => {},
            }
        }
    }

    /// The restore is done (or could not be done): snapshots resume.
    pub fn on_restored(&mut self)
        ensures
            !final(self).restoring,
            final(self).level_bits == old(self).level_bits,
            final(self).muted == old(self).muted,
            final(self).suppressing == old(self).suppressing,
    {
        self.restoring = false;
    }

    /// Whether the overlay-hiding loop keeps going.
    pub fn keep_suppressing(&self) -> (r: bool)
        ensures
            r == self.suppressing,
    {
        self.suppressing
    }
}

/// Starting the guard: overlay suppression on.
pub fn spawn(guard: &mut VolumeGuard)
    ensures
        final(guard).suppressing,
        final(guard).level_bits == old(guard).level_bits,
        final(guard).muted == old(guard).muted,
        final(guard).restoring == old(guard).restoring,
{
    guard.suppressing = true;
}

/// A press happened: hold the snapshot and hand back the volume and mute
/// state to put back after `RESTORE_DELAY_MS`.
pub fn restore_after_press(guard: &mut VolumeGuard) -> (r: (u32, bool))
    ensures
        final(guard).restoring,
        r == (old(guard).level_bits, old(guard).muted),
        final(guard).level_bits == old(guard).level_bits,
        final(guard).muted == old(guard).muted,
        final(guard).suppressing == old(guard).suppressing,
{
    guard.restoring = true;
    (guard.level_bits, guard.muted)
}

/// Quitting: overlay suppression stops (the caller shows the overlay's
/// content window again).
pub fn uninstall(guard: &mut VolumeGuard)
    ensures
        !final(guard).suppressing,
        final(guard).level_bits == old(guard).level_bits,
        final(guard).muted == old(guard).muted,
        final(guard).restoring == old(guard).restoring,
{
    guard.suppressing = false;
}

} // verus!
