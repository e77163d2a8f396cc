use vstd::prelude::*;

verus! {

/// Side of the score grid that the model's maps are laid out on.
pub const SCORE_SIZE: usize = 16;

/// Cells in the score grid.
pub const SCORE_CELLS: usize = 256;

// Scores are 32-bit floats produced outside the library. The library handles
// them as order keys: the float's bit pattern mapped to an unsigned integer
// whose order is the numeric order of the floats. Zero of either sign gets
// `ZERO_KEY`, negative infinity `NEG_INF_KEY`, every NaN `NAN_KEY`, which lies
// below every number.
/// Key of a float zero.
pub const ZERO_KEY: u32 = 0x7f80_0001;

/// Key of negative infinity, the least number.
pub const NEG_INF_KEY: u32 = 1;

/// Key of every NaN.
pub const NAN_KEY: u32 = 0;

/// Key of positive infinity, the greatest number.
pub const POS_INF_KEY: u32 = 0xff00_0001;

/// Sign bit of a 32-bit float.
pub const SIGN_BIT: u32 = 0x8000_0000;

/// Bit pattern of infinity, the greatest magnitude that is no NaN.
pub const INF_MAGNITUDE: u32 = 0x7f80_0000;

/// Bit pattern of the NaN that `score_bits` gives.
pub const QUIET_NAN: u32 = 0x7fc0_0000;

/// The order key of the float with bit pattern `bits`: zero's key plus the
/// magnitude for a positive float, minus it for a negative one.
pub open spec fn order_key_spec(bits: u32) -> int {
    let negative = bits >= SIGN_BIT;
    let magnitude = if negative {
        bits - SIGN_BIT
    } else {
        bits as int
    };
    if magnitude > INF_MAGNITUDE {
        NAN_KEY as int
    } else if negative {
        ZERO_KEY - magnitude
    } else {
        ZERO_KEY + magnitude
    }
}

/// The order key of the 32-bit float with bit pattern `bits`.
pub fn order_key(bits: u32) -> (r: u32)
    ensures
        r == order_key_spec(bits),
        r <= POS_INF_KEY,
{
    let negative: bool = bits >= SIGN_BIT;
    let magnitude: u32 = if negative {
        bits - SIGN_BIT
    } else {
        bits
    };
    if magnitude > INF_MAGNITUDE {
        NAN_KEY
    } else if negative {
        ZERO_KEY - magnitude
    } else {
        ZERO_KEY + magnitude
    }
}

/// A bit pattern whose order key is `key`: the positive zero for `ZERO_KEY`,
/// a quiet NaN for a key that no float has.
pub fn score_bits(key: u32) -> (r: u32)
    ensures
        NEG_INF_KEY <= key <= POS_INF_KEY ==> order_key_spec(r) == key,
        key == ZERO_KEY ==> r == 0,
        key == NAN_KEY || key > POS_INF_KEY ==> r == QUIET_NAN,
{
    if key == NAN_KEY || key > POS_INF_KEY {
        QUIET_NAN
    } else if key >= ZERO_KEY {
        key - ZERO_KEY
    } else {
        SIGN_BIT + (ZERO_KEY - key)
    }
}

/// `(index, key)` is what a scan of `s` for its greatest key gives, starting
/// from negative infinity at index 0 and moving only on a strictly greater
/// key: the first index of the greatest key, or index 0 with negative
/// infinity where no key exceeds it.
pub open spec fn is_first_max(s: Seq<u32>, index: int, key: int) -> bool {
    &&& key >= NEG_INF_KEY
    &&& forall|j: int| 0 <= j < s.len() ==> s[j] <= key
    &&& key == NEG_INF_KEY ==> index == 0
    &&& key > NEG_INF_KEY ==> 0 <= index < s.len() && s[index] == key && forall|j: int|
        0 <= j < index ==> s[j] < key
}

/// Index and key of the greatest order key in `keys`; the first one wins a
/// tie.
pub fn find_max(keys: &[u32]) -> (r: (usize, u32))
    ensures
        is_first_max(keys@, r.0 as int, r.1 as int),
{
    let mut max_idx: usize = 0;
    let mut max_key: u32 = NEG_INF_KEY;
    let mut idx: usize = 0;
    while idx < keys.len()
        invariant
            idx <= keys@.len(),
            is_first_max(keys@.subrange(0, idx as int), max_idx as int, max_key as int),
        decreases keys@.len() - idx,
    {
        let k: u32 = keys[idx];
        assert(keys@.subrange(0, idx + 1) =~= keys@.subrange(0, idx as int).push(k));
        if k > max_key {
            max_key = k;
            max_idx = idx;
        }
        idx = idx + 1;
    }
    assert(keys@.subrange(0, idx as int) =~= keys@);
    (max_idx, max_key)
}

/// The peak of the windowed score grid.
#[derive(Debug, Clone, Copy)]
pub struct Peak {
    /// Position in the grid, row by row.
    pub index: usize,
    pub row: usize,
    pub col: usize,
    /// Order key of the windowed score there.
    pub score_key: u32,
}

/// Find the peak of a windowed score grid given as order keys.
pub fn locate_peak(windowed: &[u32]) -> (r: Peak)
    requires
        windowed@.len() == SCORE_CELLS,
    ensures
        is_first_max(windowed@, r.index as int, r.score_key as int),
        r.index < SCORE_CELLS,
        r.row == r.index / SCORE_SIZE,
        r.col == r.index % SCORE_SIZE,
        r.row < SCORE_SIZE && r.col < SCORE_SIZE,
{
    let (index, score_key) = find_max(windowed);
    Peak { index, row: index / SCORE_SIZE, col: index % SCORE_SIZE, score_key }
}

/// Position of channel `channel` of cell `(row, col)` in a map of two
/// channels laid out channel by channel, each row by row.
pub fn map_index(channel: usize, row: usize, col: usize) -> (r: usize)
    requires
        channel < 2,
        row < SCORE_SIZE,
        col < SCORE_SIZE,
    ensures
        r == channel * SCORE_CELLS + row * SCORE_SIZE + col,
        r < 2 * SCORE_CELLS,
{
    channel * SCORE_CELLS + row * SCORE_SIZE + col
}

/// Outcome of one tracking step.
#[derive(Debug, Clone, Copy)]
pub struct TrackingResult {
    pub success: bool,
    /// `[x, y, width, height]`.
    pub bbox: [i32; 4],
    /// Order key of the peak score.
    pub score_key: u32,
}

impl TrackingResult {
    /// Not tracking: no success, the empty box at the origin, a zero score.
    pub open spec fn is_idle(&self) -> bool {
        !self.success && self.bbox@ == seq![0i32, 0, 0, 0] && self.score_key == ZERO_KEY
    }
}

impl Default for TrackingResult {
    fn default() -> (r: Self)
        ensures
            r.is_idle(),
    {
        let r = TrackingResult { success: false, bbox: [0, 0, 0, 0], score_key: ZERO_KEY };
        assert(r.bbox@ =~= seq![0i32, 0, 0, 0]);
        r
    }
}

/// Settle a tracking step: a peak that reaches the threshold adopts the box
/// decoded at it, `candidate`; a lower one keeps `rect_last` as it was.
pub fn process_outputs(peak: &Peak, threshold_key: u32, candidate: [i32; 4], rect_last: [i32; 4]) -> (r:
    TrackingResult)
    ensures
        r.success == (peak.score_key >= threshold_key),
        r.score_key == peak.score_key,
        r.bbox@ == if r.success {
            candidate@
        } else {
            rect_last@
        },
{
    if peak.score_key >= threshold_key {
        TrackingResult { success: true, bbox: candidate, score_key: peak.score_key }
    } else {
        TrackingResult { success: false, bbox: rect_last, score_key: peak.score_key }
    }
}

} // verus!
