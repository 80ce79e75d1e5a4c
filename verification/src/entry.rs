//! The per-path dirstate entry: a small state machine over three flags
//! (tracked in the working directory, tracked in the first parent, carrying
//! information from the second parent) with optional mode/size and mtime
//! payloads, convertible to and from the legacy four-state "v1" view.

use vstd::prelude::*;
use crate::on_disk::DirstateV2ParseError;

verus! {

pub const NSEC_PER_SEC: u32 = 1_000_000_000;
pub const RANGE_MASK_31BIT: u32 = 0x7FFF_FFFF;

pub const MTIME_UNSET: i32 = -1;

/// An entry with a size of `-2` means that it was merged from the other
/// parent. This allows revert to pick the right status back during a merge.
pub const SIZE_FROM_OTHER_PARENT: i32 = -2;
/// A special value used for internal representation of special case in
/// dirstate v1 format.
pub const SIZE_NON_NORMAL: i32 = -1;

/// The four legacy entry states of the "v1" dirstate format.
#[derive(Copy, Clone, Debug, PartialEq, Eq, Structural)]
pub enum EntryState {
    Normal,
    Added,
    Removed,
    Merged,
}

/// A Unix timestamp with nanoseconds precision, its seconds truncated to
/// their low 31 bits.
#[derive(Copy, Clone, Debug)]
pub struct TruncatedTimestamp {
    pub truncated_seconds: u32,
    /// Always in the `0 .. 1_000_000_000` range.
    pub nanoseconds: u32,
}

/// Well-formedness of a truncated timestamp: the seconds fit in 31 bits and
/// the nanoseconds are a valid sub-second count.
pub open spec fn ts_wf(t: TruncatedTimestamp) -> bool {
    t.truncated_seconds <= RANGE_MASK_31BIT && t.nanoseconds < NSEC_PER_SEC
}

/// What truncation produces for a duration relative to the epoch:
/// the pair (truncated seconds, nanoseconds) for `seconds` and `nanoseconds`
/// after the epoch (`before_epoch == false`) or before it.
///
/// A duration of `s` seconds and `n` nanoseconds before the epoch is the
/// signed instant `-s` seconds when `n == 0`, and `(-1 - s)` seconds plus
/// `10^9 - n` nanoseconds otherwise, so that nanoseconds stay non-negative.
pub open spec fn spec_from_duration(before_epoch: bool, seconds: u64, nanoseconds: u32) -> (int, int) {
    if !before_epoch {
        (seconds as int % 0x8000_0000, nanoseconds as int)
    } else if nanoseconds == 0 {
        ((0x8000_0000 - seconds as int % 0x8000_0000) % 0x8000_0000, 0)
    } else {
        (
            (0x8000_0000 - (seconds as int % 0x8000_0000 + 1) % 0x8000_0000) % 0x8000_0000,
            0x3B9A_CA00 - nanoseconds as int,
        )
    }
}

impl TruncatedTimestamp {
    /// Constructs from a timestamp potentially outside of the supported
    /// range, truncating the seconds component to its lower 31 bits.
    pub fn new_truncate(seconds: i64, nanoseconds: u32) -> (r: Self)
        requires
            nanoseconds < NSEC_PER_SEC,
        ensures
            r.truncated_seconds as i64 == seconds & 0x7FFF_FFFFi64,
            r.nanoseconds == nanoseconds,
            ts_wf(r),
    {
        let masked: i64 = seconds & 0x7FFF_FFFF;
        assert(0i64 <= (seconds & 0x7FFF_FFFFi64) < 0x8000_0000i64) by (bit_vector);
        Self { truncated_seconds: masked as u32, nanoseconds }
    }

    /// Construct from components. Returns an error if they are not in the
    /// expected range.
    pub fn from_already_truncated(truncated_seconds: u32, nanoseconds: u32) -> (r: Result<
        Self,
        DirstateV2ParseError,
    >)
        ensures
            truncated_seconds <= RANGE_MASK_31BIT && nanoseconds < NSEC_PER_SEC <==> r is Ok,
            r matches Ok(t) ==> t.truncated_seconds == truncated_seconds && t.nanoseconds
                == nanoseconds && ts_wf(t),
    {
        if truncated_seconds & !RANGE_MASK_31BIT == 0 && nanoseconds < NSEC_PER_SEC {
            assert(truncated_seconds & !0x7FFF_FFFFu32 == 0 ==> truncated_seconds
                <= 0x7FFF_FFFFu32) by (bit_vector);
            Ok(Self { truncated_seconds, nanoseconds })
        } else {
            assert(truncated_seconds <= 0x7FFF_FFFFu32 ==> truncated_seconds & !0x7FFF_FFFFu32
                == 0) by (bit_vector);
            Err(DirstateV2ParseError)
        }
    }

    /// The lower 31 bits of the number of seconds since the epoch.
    pub fn truncated_seconds(&self) -> (r: u32)
        ensures
            r == self.truncated_seconds,
    {
        self.truncated_seconds
    }

    /// The sub-second component of this timestamp, in nanoseconds.
    pub fn nanoseconds(&self) -> (r: u32)
        ensures
            r == self.nanoseconds,
    {
        self.nanoseconds
    }

    /// Returns whether two timestamps are equal modulo 2**31 seconds.
    ///
    /// If this returns `true`, the original values converted from system
    /// time or given to `new_truncate` were very likely equal: a false
    /// positive needs the two instants to be an exact multiple of 2**31
    /// seconds (around 68 years) apart.
    pub fn very_likely_equal(&self, other: &Self) -> (r: bool)
        ensures
            r == (self.truncated_seconds == other.truncated_seconds && self.nanoseconds
                == other.nanoseconds),
    {
        self.truncated_seconds == other.truncated_seconds && self.nanoseconds
            == other.nanoseconds
    }

    /// The verified core of system-time conversion: renormalizes a duration
    /// relative to the epoch so that nanoseconds stay in `0 .. 10^9`, then
    /// truncates the seconds to 31 bits.
    pub fn from_duration_since_epoch(before_epoch: bool, seconds: u64, nanoseconds: u32) -> (r:
        Self)
        requires
            nanoseconds < NSEC_PER_SEC,
        ensures
            ts_wf(r),
            (r.truncated_seconds as int, r.nanoseconds as int) == spec_from_duration(
                before_epoch,
                seconds,
                nanoseconds,
            ),
    {
        if !before_epoch {
            let ts: u64 = seconds % 0x8000_0000;
            Self { truncated_seconds: ts as u32, nanoseconds }
        } else if nanoseconds == 0 {
            let m: u64 = seconds % 0x8000_0000;
            let ts: u64 = (0x8000_0000 - m) % 0x8000_0000;
            Self { truncated_seconds: ts as u32, nanoseconds: 0 }
        } else {
            let m: u64 = (seconds % 0x8000_0000) + 1;
            let m: u64 = m % 0x8000_0000;
            let ts: u64 = (0x8000_0000 - m) % 0x8000_0000;
            Self { truncated_seconds: ts as u32, nanoseconds: NSEC_PER_SEC - nanoseconds }
        }
    }

    /// Conversion from a system clock reading.
    ///
    /// Whatever instant the clock reported, the result is a well-formed
    /// truncated timestamp; in particular its nanoseconds are in
    /// `0 .. 10^9`.
    pub fn from_system_time(system_time: std::time::SystemTime) -> (r: Self)
        ensures
            ts_wf(r),
    {
        match duration_since(&system_time, unix_epoch()) {
            Ok(duration) => Self::from_duration_since_epoch(
                false,
                duration_as_secs(&duration),
                duration_subsec_nanos(&duration),
            ),
            Err(error) => {
                let negative = system_time_error_duration(&error);
                Self::from_duration_since_epoch(
                    true,
                    duration_as_secs(&negative),
                    duration_subsec_nanos(&negative),
                )
            },
        }
    }
}

/// A dirstate entry: three orthogonal flags plus two optional payloads.
///
/// An entry with none of the three flags set is logically absent; the
/// accessors that project it onto the legacy "v1" view require at least one
/// flag.
#[derive(Copy, Clone, Debug, PartialEq)]
pub struct DirstateEntry {
    pub wdir_tracked: bool,
    pub p1_tracked: bool,
    pub p2_info: bool,
    pub mode_size: Option<(i32, i32)>,
    pub mtime: Option<i32>,
}

pub open spec fn spec_any_tracked(e: DirstateEntry) -> bool {
    e.wdir_tracked || e.p1_tracked || e.p2_info
}

pub open spec fn spec_removed(e: DirstateEntry) -> bool {
    (e.p1_tracked || e.p2_info) && !e.wdir_tracked
}

pub open spec fn spec_added(e: DirstateEntry) -> bool {
    e.wdir_tracked && !e.p1_tracked && !e.p2_info
}

pub open spec fn spec_merged(e: DirstateEntry) -> bool {
    e.wdir_tracked && e.p1_tracked && e.p2_info
}

pub open spec fn spec_maybe_clean(e: DirstateEntry) -> bool {
    e.wdir_tracked && e.p1_tracked && !e.p2_info
}

/// The legacy state label: removed wins, then merged, then added, and
/// everything else reads as normal.
pub open spec fn spec_v1_state(e: DirstateEntry) -> EntryState {
    if spec_removed(e) {
        EntryState::Removed
    } else if spec_merged(e) {
        EntryState::Merged
    } else if spec_added(e) {
        EntryState::Added
    } else {
        EntryState::Normal
    }
}

pub open spec fn spec_v1_mode(e: DirstateEntry) -> i32 {
    match e.mode_size {
        Some((mode, _size)) => mode,
        None => 0,
    }
}

/// The legacy size channel, with its two sentinels: `-1` for
/// "non-normal / needs lookup" and `-2` for "data from the other parent".
pub open spec fn spec_v1_size(e: DirstateEntry) -> i32 {
    if spec_removed(e) && e.p1_tracked && e.p2_info {
        SIZE_NON_NORMAL
    } else if e.p2_info {
        SIZE_FROM_OTHER_PARENT
    } else if spec_removed(e) {
        0
    } else if spec_added(e) {
        SIZE_NON_NORMAL
    } else {
        match e.mode_size {
            Some((_mode, size)) => size,
            None => SIZE_NON_NORMAL,
        }
    }
}

/// The legacy mtime channel: `0` for removed entries, the `-1` sentinel
/// whenever the payload is not meaningful.
pub open spec fn spec_v1_mtime(e: DirstateEntry) -> i32 {
    if spec_removed(e) {
        0
    } else if e.p2_info {
        MTIME_UNSET
    } else if !e.p1_tracked {
        MTIME_UNSET
    } else {
        match e.mtime {
            Some(mtime) => mtime,
            None => MTIME_UNSET,
        }
    }
}

/// The full legacy quad of an entry.
pub open spec fn spec_v1_quad(e: DirstateEntry) -> (EntryState, i32, i32, i32) {
    (spec_v1_state(e), spec_v1_mode(e), spec_v1_size(e), spec_v1_mtime(e))
}

/// Decoding of a legacy quad, following the v1 decode table.
pub open spec fn spec_from_v1_data(state: EntryState, mode: i32, size: i32, mtime: i32)
    -> DirstateEntry {
    match state {
        EntryState::Normal => {
            if size == SIZE_FROM_OTHER_PARENT {
                // might be missing p1_tracked
                DirstateEntry {
                    wdir_tracked: true,
                    p1_tracked: false,
                    p2_info: true,
                    mode_size: None,
                    mtime: None,
                }
            } else if size == SIZE_NON_NORMAL {
                DirstateEntry {
                    wdir_tracked: true,
                    p1_tracked: true,
                    p2_info: false,
                    mode_size: None,
                    mtime: None,
                }
            } else if mtime == MTIME_UNSET {
                DirstateEntry {
                    wdir_tracked: true,
                    p1_tracked: true,
                    p2_info: false,
                    mode_size: Some((mode, size)),
                    mtime: None,
                }
            } else {
                DirstateEntry {
                    wdir_tracked: true,
                    p1_tracked: true,
                    p2_info: false,
                    mode_size: Some((mode, size)),
                    mtime: Some(mtime),
                }
            }
        },
        EntryState::Added => DirstateEntry {
            wdir_tracked: true,
            p1_tracked: false,
            p2_info: false,
            mode_size: None,
            mtime: None,
        },
        EntryState::Removed => DirstateEntry {
            wdir_tracked: false,
            // for size == -2 it is unknown whether p1_tracked should be set
            // (file history); the conservative choice clears it
            p1_tracked: size != SIZE_FROM_OTHER_PARENT,
            p2_info: size == SIZE_NON_NORMAL || size == SIZE_FROM_OTHER_PARENT,
            mode_size: None,
            mtime: None,
        },
        EntryState::Merged => DirstateEntry {
            // p1_tracked and p2_info might not be true because of rename,
            // this over-approximation is kept on purpose
            wdir_tracked: true,
            p1_tracked: true,
            p2_info: true,
            mode_size: None,
            mtime: None,
        },
    }
}

/// The legacy quads that survive a decode/re-encode round trip: for each
/// decode-table row, the "don't care" channels hold the value that
/// re-encoding produces.
pub open spec fn spec_v1_canonical(state: EntryState, mode: i32, size: i32, mtime: i32) -> bool {
    match state {
        EntryState::Normal => size >= 0 || (mode == 0 && mtime == MTIME_UNSET && (size
            == SIZE_NON_NORMAL || size == SIZE_FROM_OTHER_PARENT)),
        EntryState::Added => mode == 0 && size == SIZE_NON_NORMAL && mtime == MTIME_UNSET,
        EntryState::Removed => mode == 0 && mtime == 0 && (size == 0 || size == SIZE_NON_NORMAL
            || size == SIZE_FROM_OTHER_PARENT),
        EntryState::Merged => mode == 0 && size == SIZE_FROM_OTHER_PARENT && mtime == MTIME_UNSET,
    }
}

/// Every canonical legacy quad survives decoding and re-encoding unchanged.
pub proof fn lemma_v1_round_trip(state: EntryState, mode: i32, size: i32, mtime: i32)
    requires
        spec_v1_canonical(state, mode, size, mtime),
    ensures
        spec_v1_quad(spec_from_v1_data(state, mode, size, mtime)) === (state, mode, size, mtime),
{
}

/// Every flag triple with at least one flag set, with any payloads, survives
/// a v2 encode/decode round trip unchanged.
pub proof fn lemma_v2_round_trip(
    wdir_tracked: bool,
    p1_tracked: bool,
    p2_info: bool,
    mode_size: Option<(i32, i32)>,
    mtime: Option<i32>,
)
    requires
        wdir_tracked || p1_tracked || p2_info,
    ensures
        ({
            let e = DirstateEntry { wdir_tracked, p1_tracked, p2_info, mode_size, mtime };
            spec_any_tracked(e) && (e.wdir_tracked, e.p1_tracked, e.p2_info, e.mode_size, e.mtime)
                === (wdir_tracked, p1_tracked, p2_info, mode_size, mtime)
        }),
{
}

impl DirstateEntry {
    pub fn from_v2_data(
        wdir_tracked: bool,
        p1_tracked: bool,
        p2_info: bool,
        mode_size: Option<(i32, i32)>,
        mtime: Option<i32>,
    ) -> (r: Self)
        ensures
            r == (DirstateEntry { wdir_tracked, p1_tracked, p2_info, mode_size, mtime }),
    {
        Self { wdir_tracked, p1_tracked, p2_info, mode_size, mtime }
    }

    pub fn from_v1_data(state: EntryState, mode: i32, size: i32, mtime: i32) -> (r: Self)
        ensures
            r == spec_from_v1_data(state, mode, size, mtime),
    {
        match state {
            EntryState::Normal => {
                if size == SIZE_FROM_OTHER_PARENT {
                    Self {
                        wdir_tracked: true,
                        p1_tracked: false,
                        p2_info: true,
                        mode_size: None,
                        mtime: None,
                    }
                } else if size == SIZE_NON_NORMAL {
                    Self {
                        wdir_tracked: true,
                        p1_tracked: true,
                        p2_info: false,
                        mode_size: None,
                        mtime: None,
                    }
                } else if mtime == MTIME_UNSET {
                    Self {
                        wdir_tracked: true,
                        p1_tracked: true,
                        p2_info: false,
                        mode_size: Some((mode, size)),
                        mtime: None,
                    }
                } else {
                    Self {
                        wdir_tracked: true,
                        p1_tracked: true,
                        p2_info: false,
                        mode_size: Some((mode, size)),
                        mtime: Some(mtime),
                    }
                }
            },
            EntryState::Added => Self {
                wdir_tracked: true,
                p1_tracked: false,
                p2_info: false,
                mode_size: None,
                mtime: None,
            },
            EntryState::Removed => Self {
                wdir_tracked: false,
                p1_tracked: size != SIZE_FROM_OTHER_PARENT,
                p2_info: size == SIZE_NON_NORMAL || size == SIZE_FROM_OTHER_PARENT,
                mode_size: None,
                mtime: None,
            },
            EntryState::Merged => Self {
                wdir_tracked: true,
                p1_tracked: true,
                p2_info: true,
                mode_size: None,
                mtime: None,
            },
        }
    }

    /// Creates a new entry in "removed" state.
    ///
    /// `size` is expected to be zero, `SIZE_NON_NORMAL`, or
    /// `SIZE_FROM_OTHER_PARENT`.
    pub fn new_removed(size: i32) -> (r: Self)
        ensures
            r == spec_from_v1_data(EntryState::Removed, 0, size, 0),
    {
        Self::from_v1_data(EntryState::Removed, 0, size, 0)
    }

    pub fn tracked_in_wdir(&self) -> (r: bool)
        ensures
            r == self.wdir_tracked,
    {
        self.wdir_tracked
    }

    pub fn p1_tracked(&self) -> (r: bool)
        ensures
            r == self.p1_tracked,
    {
        self.p1_tracked
    }

    fn in_either_parent(&self) -> (r: bool)
        ensures
            r == (self.p1_tracked || self.p2_info),
    {
        self.p1_tracked || self.p2_info
    }

    pub fn removed(&self) -> (r: bool)
        ensures
            r == spec_removed(*self),
    {
        self.in_either_parent() && !self.wdir_tracked
    }

    /// Whether the entry is tracked in the working directory and carries
    /// second-parent information.
    pub fn p2_info(&self) -> (r: bool)
        ensures
            r == (self.wdir_tracked && self.p2_info),
    {
        self.wdir_tracked && self.p2_info
    }

    pub fn added(&self) -> (r: bool)
        ensures
            r == spec_added(*self),
    {
        self.wdir_tracked && !self.in_either_parent()
    }

    pub fn maybe_clean(&self) -> (r: bool)
        ensures
            r == spec_maybe_clean(*self),
    {
        if !self.wdir_tracked {
            false
        } else if !self.p1_tracked {
            false
        } else if self.p2_info {
            false
        } else {
            true
        }
    }

    pub fn any_tracked(&self) -> (r: bool)
        ensures
            r == spec_any_tracked(*self),
    {
        self.wdir_tracked || self.p1_tracked || self.p2_info
    }

    /// Returns `(wdir_tracked, p1_tracked, p2_info, mode_size, mtime)`.
    pub fn v2_data(&self) -> (r: (bool, bool, bool, Option<(i32, i32)>, Option<i32>))
        requires
            spec_any_tracked(*self),
        ensures
            r === (self.wdir_tracked, self.p1_tracked, self.p2_info, self.mode_size, self.mtime),
    {
        (self.wdir_tracked, self.p1_tracked, self.p2_info, self.mode_size, self.mtime)
    }

    fn v1_state(&self) -> (r: EntryState)
        requires
            spec_any_tracked(*self),
        ensures
            r == spec_v1_state(*self),
    {
        if self.removed() {
            EntryState::Removed
        } else if self.wdir_tracked && self.p1_tracked && self.p2_info {
            EntryState::Merged
        } else if self.added() {
            EntryState::Added
        } else {
            EntryState::Normal
        }
    }

    fn v1_mode(&self) -> (r: i32)
        ensures
            r == spec_v1_mode(*self),
    {
        if let Some((mode, _size)) = self.mode_size {
            mode
        } else {
            0
        }
    }

    fn v1_size(&self) -> (r: i32)
        requires
            spec_any_tracked(*self),
        ensures
            r == spec_v1_size(*self),
    {
        if self.removed() && self.p1_tracked && self.p2_info {
            SIZE_NON_NORMAL
        } else if self.p2_info {
            SIZE_FROM_OTHER_PARENT
        } else if self.removed() {
            0
        } else if self.added() {
            SIZE_NON_NORMAL
        } else if let Some((_mode, size)) = self.mode_size {
            size
        } else {
            SIZE_NON_NORMAL
        }
    }

    fn v1_mtime(&self) -> (r: i32)
        requires
            spec_any_tracked(*self),
        ensures
            r == spec_v1_mtime(*self),
    {
        if self.removed() {
            0
        } else if self.p2_info {
            MTIME_UNSET
        } else if !self.p1_tracked {
            MTIME_UNSET
        } else if let Some(mtime) = self.mtime {
            mtime
        } else {
            MTIME_UNSET
        }
    }

    pub fn state(&self) -> (r: EntryState)
        requires
            spec_any_tracked(*self),
        ensures
            r == spec_v1_state(*self),
    {
        self.v1_state()
    }

    pub fn mode(&self) -> (r: i32)
        ensures
            r == spec_v1_mode(*self),
    {
        self.v1_mode()
    }

    pub fn size(&self) -> (r: i32)
        requires
            spec_any_tracked(*self),
        ensures
            r == spec_v1_size(*self),
    {
        self.v1_size()
    }

    pub fn mtime(&self) -> (r: i32)
        requires
            spec_any_tracked(*self),
        ensures
            r == spec_v1_mtime(*self),
    {
        self.v1_mtime()
    }

    /// Clears the second-parent information and discards both payloads.
    pub fn drop_merge_data(&mut self)
        ensures
            old(self).p2_info ==> *final(self) == (DirstateEntry {
                p2_info: false,
                mode_size: None,
                mtime: None,
                ..*old(self)
            }),
            !old(self).p2_info ==> *final(self) == *old(self),
    {
        if self.p2_info {
            self.p2_info = false;
            self.mode_size = None;
            self.mtime = None;
        }
    }

    pub fn set_possibly_dirty(&mut self)
        ensures
            *final(self) == (DirstateEntry { mtime: None, ..*old(self) }),
    {
        self.mtime = None;
    }

    pub fn set_clean(&mut self, mode: i32, size: i32, mtime: i32)
        ensures
            *final(self) == (DirstateEntry {
                wdir_tracked: true,
                p1_tracked: true,
                mode_size: Some((mode, size)),
                mtime: Some(mtime),
                ..*old(self)
            }),
    {
        self.wdir_tracked = true;
        self.p1_tracked = true;
        self.mode_size = Some((mode, size));
        self.mtime = Some(mtime);
    }

    /// Marks the path tracked in the working directory, and clears the mtime
    /// payload so that the next status run looks the file up again.
    pub fn set_tracked(&mut self)
        ensures
            *final(self) == (DirstateEntry { wdir_tracked: true, mtime: None, ..*old(self) }),
    {
        self.wdir_tracked = true;
        self.mtime = None;
    }

    pub fn set_untracked(&mut self)
        ensures
            *final(self) == (DirstateEntry {
                wdir_tracked: false,
                mode_size: None,
                mtime: None,
                ..*old(self)
            }),
    {
        self.wdir_tracked = false;
        self.mode_size = None;
        self.mtime = None;
    }

    /// Returns `(state, mode, size, mtime)` for the purpose of serialization
    /// in the dirstate-v1 format, including the sentinel values.
    pub fn v1_data(&self) -> (r: (u8, i32, i32, i32))
        requires
            spec_any_tracked(*self),
        ensures
            r === (
                spec_state_byte(spec_v1_state(*self)),
                spec_v1_mode(*self),
                spec_v1_size(*self),
                spec_v1_mtime(*self),
            ),
    {
        (self.v1_state().into_byte(), self.v1_mode(), self.v1_size(), self.v1_mtime())
    }

    pub fn is_from_other_parent(&self) -> (r: bool)
        requires
            spec_any_tracked(*self),
        ensures
            r == (spec_v1_state(*self) == EntryState::Normal && spec_v1_size(*self)
                == SIZE_FROM_OTHER_PARENT),
    {
        let is_normal: bool = match self.state() {
            EntryState::Normal => true,
            _ => false,
        };
        is_normal && self.size() == SIZE_FROM_OTHER_PARENT
    }

    /// Whether the executable bit recorded in the entry's mode differs from
    /// the one in the given filesystem mode.
    pub fn mode_changed(&self, filesystem_mode: u32) -> (r: bool)
        ensures
            r == ((spec_v1_mode(*self) as u32 & 0o100u32) != (filesystem_mode & 0o100u32)),
    {
        let dirstate_exec_bit: u32 = (self.mode() as u32) & 0o100;
        let fs_exec_bit: u32 = filesystem_mode & 0o100;
        dirstate_exec_bit != fs_exec_bit
    }

    /// Returns a `(state, mode, size, mtime)` tuple for debug listings.
    pub fn debug_tuple(&self) -> (r: (u8, i32, i32, i32))
        requires
            spec_any_tracked(*self),
        ensures
            r === (
                spec_state_byte(spec_v1_state(*self)),
                spec_v1_mode(*self),
                spec_v1_size(*self),
                spec_v1_mtime(*self),
            ),
    {
        (self.state().into_byte(), self.mode(), self.size(), self.mtime())
    }

    /// A file modified "simultaneously" with the dirstate write cannot be
    /// told apart from a clean one by its mtime alone.
    pub fn mtime_is_ambiguous(&self, now: i32) -> (r: bool)
        requires
            spec_any_tracked(*self),
        ensures
            r == (spec_v1_state(*self) == EntryState::Normal && spec_v1_mtime(*self) == now),
    {
        let is_normal: bool = match self.state() {
            EntryState::Normal => true,
            _ => false,
        };
        is_normal && self.mtime() == now
    }

    /// If the entry's mtime equals the dirstate write time, clears the mtime
    /// payload so that future status runs compare file contents; returns
    /// whether it fired.
    pub fn clear_ambiguous_mtime(&mut self, now: i32) -> (r: bool)
        requires
            spec_any_tracked(*old(self)),
        ensures
            r == (spec_v1_state(*old(self)) == EntryState::Normal && spec_v1_mtime(*old(self))
                == now),
            r ==> *final(self) == (DirstateEntry { mtime: None, ..*old(self) }),
            !r ==> *final(self) == *old(self),
    {
        let ambiguous = self.mtime_is_ambiguous(now);
        if ambiguous {
            self.set_possibly_dirty()
        }
        ambiguous
    }
}

/// The byte that each legacy state serializes to.
pub open spec fn spec_state_byte(state: EntryState) -> u8 {
    match state {
        EntryState::Normal => 110u8,
        EntryState::Added => 97u8,
        EntryState::Removed => 114u8,
        EntryState::Merged => 109u8,
    }
}

impl EntryState {
    pub fn is_tracked(self) -> (r: bool)
        ensures
            r == (self != EntryState::Removed),
    {
        match self {
            EntryState::Normal | EntryState::Added | EntryState::Merged => true,
            EntryState::Removed => false,
        }
    }

    /// Decodes a state byte; any byte other than the four legal ones is a
    /// parse error.
    pub fn try_from_byte(value: u8) -> (r: Result<Self, DirstateV2ParseError>)
        ensures
            value == 110u8 ==> r === Ok(EntryState::Normal),
            value == 97u8 ==> r === Ok(EntryState::Added),
            value == 114u8 ==> r === Ok(EntryState::Removed),
            value == 109u8 ==> r === Ok(EntryState::Merged),
            value != 110u8 && value != 97u8 && value != 114u8 && value != 109u8 ==> r is Err,
    {
        match value {
            110u8 => Ok(EntryState::Normal),
            97u8 => Ok(EntryState::Added),
            114u8 => Ok(EntryState::Removed),
            109u8 => Ok(EntryState::Merged),
            _ => Err(DirstateV2ParseError),
        }
    }

    pub fn into_byte(self) -> (r: u8)
        ensures
            r == spec_state_byte(self),
    {
        match self {
            EntryState::Normal => 110u8,
            EntryState::Added => 97u8,
            EntryState::Removed => 114u8,
            EntryState::Merged => 109u8,
        }
    }
}

#[verifier::external_type_specification]
#[verifier::external_body]
pub struct ExSystemTime(std::time::SystemTime);

#[verifier::external_type_specification]
#[verifier::external_body]
pub struct ExSystemTimeError(std::time::SystemTimeError);

/// Relies on `std::time::UNIX_EPOCH`: the reference instant that on-disk
/// timestamps are measured from.
#[verifier::external_body]
fn unix_epoch() -> std::time::SystemTime {
    std::time::UNIX_EPOCH
}

/// Relies on `std::time::SystemTime::duration_since`: `Ok` holds the
/// duration from `earlier` to `t` when `t` is not before `earlier`, and the
/// error of the other case holds the opposite duration.
#[verifier::external_body]
fn duration_since(t: &std::time::SystemTime, earlier: std::time::SystemTime) -> Result<
    core::time::Duration,
    std::time::SystemTimeError,
> {
    t.duration_since(earlier)
}

/// Relies on `core::time::Duration::as_secs`: the whole-second part of the
/// duration.
#[verifier::external_body]
fn duration_as_secs(d: &core::time::Duration) -> u64 {
    d.as_secs()
}

/// Relies on `core::time::Duration::subsec_nanos`: the fractional part of
/// the duration, documented to be less than one billion.
#[verifier::external_body]
fn duration_subsec_nanos(d: &core::time::Duration) -> (r: u32)
    ensures
        r < NSEC_PER_SEC,
{
    d.subsec_nanos()
}

/// Relies on `std::time::SystemTimeError::duration`: how far the earlier
/// instant was ahead of the later one.
#[verifier::external_body]
fn system_time_error_duration(e: &std::time::SystemTimeError) -> core::time::Duration {
    e.duration()
}

} // verus!
