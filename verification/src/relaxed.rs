//! The decoder's general-presentation path: the same schema as the
//! canonical grammar in `codec`, but read the way any JSON writer may have
//! put it down - members in any order, whitespace between tokens, `null`
//! for an absent optional, unknown members skipped, exponent-form numbers.
//! An object is first validated structurally, then each known member is
//! looked up by name; a known member named twice is rejected. String values
//! that are kept (the device name) take the escape-free body form; escape
//! sequences appear only inside skipped, unknown members.

use vstd::prelude::*;
use crate::lex;
use crate::lex::{int_tok_val, int_end, num_end, num_tok, str_end, str_ok};
use crate::models::{
    Bno055, BnoModel, Calib, CalibModel, Number, PayloadModel, SensorPayload, Vector3,
    Vector3Model, Wifi, WifiModel, opt_view,
};

verus! {

// ------------------------------------------------------------ member names

/// The bytes of `ts`.
pub open spec fn kn_ts() -> Seq<u8> {
    seq![116u8, 115u8]
}

fn kn_ts_x() -> (v: Vec<u8>)
    ensures
        v@ == kn_ts(),
{
    let mut v: Vec<u8> = Vec::new();
    v.push(116u8); v.push(115u8);
    proof {
        assert(v@ =~= kn_ts());
    }
    v
}

/// The bytes of `device`.
pub open spec fn kn_device() -> Seq<u8> {
    seq![100u8, 101u8, 118u8, 105u8, 99u8, 101u8]
}

fn kn_device_x() -> (v: Vec<u8>)
    ensures
        v@ == kn_device(),
{
    let mut v: Vec<u8> = Vec::new();
    v.push(100u8); v.push(101u8); v.push(118u8); v.push(105u8); v.push(99u8); v.push(101u8);
    proof {
        assert(v@ =~= kn_device());
    }
    v
}

/// The bytes of `wifi`.
pub open spec fn kn_wifi() -> Seq<u8> {
    seq![119u8, 105u8, 102u8, 105u8]
}

fn kn_wifi_x() -> (v: Vec<u8>)
    ensures
        v@ == kn_wifi(),
{
    let mut v: Vec<u8> = Vec::new();
    v.push(119u8); v.push(105u8); v.push(102u8); v.push(105u8);
    proof {
        assert(v@ =~= kn_wifi());
    }
    v
}

/// The bytes of `bno055`.
pub open spec fn kn_bno055() -> Seq<u8> {
    seq![98u8, 110u8, 111u8, 48u8, 53u8, 53u8]
}

fn kn_bno055_x() -> (v: Vec<u8>)
    ensures
        v@ == kn_bno055(),
{
    let mut v: Vec<u8> = Vec::new();
    v.push(98u8); v.push(110u8); v.push(111u8); v.push(48u8); v.push(53u8); v.push(53u8);
    proof {
        assert(v@ =~= kn_bno055());
    }
    v
}

/// The bytes of `ultrasonic_cm`.
pub open spec fn kn_ultra() -> Seq<u8> {
    seq![117u8, 108u8, 116u8, 114u8, 97u8, 115u8, 111u8, 110u8, 105u8, 99u8, 95u8, 99u8, 109u8]
}

fn kn_ultra_x() -> (v: Vec<u8>)
    ensures
        v@ == kn_ultra(),
{
    let mut v: Vec<u8> = Vec::new();
    v.push(117u8); v.push(108u8); v.push(116u8); v.push(114u8); v.push(97u8); v.push(115u8); v.push(111u8); v.push(110u8); v.push(105u8); v.push(99u8); v.push(95u8); v.push(99u8); v.push(109u8);
    proof {
        assert(v@ =~= kn_ultra());
    }
    v
}

/// The bytes of `ok`.
pub open spec fn kn_ok() -> Seq<u8> {
    seq![111u8, 107u8]
}

fn kn_ok_x() -> (v: Vec<u8>)
    ensures
        v@ == kn_ok(),
{
    let mut v: Vec<u8> = Vec::new();
    v.push(111u8); v.push(107u8);
    proof {
        assert(v@ =~= kn_ok());
    }
    v
}

/// The bytes of `heading_deg`.
pub open spec fn kn_heading() -> Seq<u8> {
    seq![104u8, 101u8, 97u8, 100u8, 105u8, 110u8, 103u8, 95u8, 100u8, 101u8, 103u8]
}

fn kn_heading_x() -> (v: Vec<u8>)
    ensures
        v@ == kn_heading(),
{
    let mut v: Vec<u8> = Vec::new();
    v.push(104u8); v.push(101u8); v.push(97u8); v.push(100u8); v.push(105u8); v.push(110u8); v.push(103u8); v.push(95u8); v.push(100u8); v.push(101u8); v.push(103u8);
    proof {
        assert(v@ =~= kn_heading());
    }
    v
}

/// The bytes of `roll_deg`.
pub open spec fn kn_roll() -> Seq<u8> {
    seq![114u8, 111u8, 108u8, 108u8, 95u8, 100u8, 101u8, 103u8]
}

fn kn_roll_x() -> (v: Vec<u8>)
    ensures
        v@ == kn_roll(),
{
    let mut v: Vec<u8> = Vec::new();
    v.push(114u8); v.push(111u8); v.push(108u8); v.push(108u8); v.push(95u8); v.push(100u8); v.push(101u8); v.push(103u8);
    proof {
        assert(v@ =~= kn_roll());
    }
    v
}

/// The bytes of `pitch_deg`.
pub open spec fn kn_pitch() -> Seq<u8> {
    seq![112u8, 105u8, 116u8, 99u8, 104u8, 95u8, 100u8, 101u8, 103u8]
}

fn kn_pitch_x() -> (v: Vec<u8>)
    ensures
        v@ == kn_pitch(),
{
    let mut v: Vec<u8> = Vec::new();
    v.push(112u8); v.push(105u8); v.push(116u8); v.push(99u8); v.push(104u8); v.push(95u8); v.push(100u8); v.push(101u8); v.push(103u8);
    proof {
        assert(v@ =~= kn_pitch());
    }
    v
}

/// The bytes of `temp_c`.
pub open spec fn kn_temp() -> Seq<u8> {
    seq![116u8, 101u8, 109u8, 112u8, 95u8, 99u8]
}

fn kn_temp_x() -> (v: Vec<u8>)
    ensures
        v@ == kn_temp(),
{
    let mut v: Vec<u8> = Vec::new();
    v.push(116u8); v.push(101u8); v.push(109u8); v.push(112u8); v.push(95u8); v.push(99u8);
    proof {
        assert(v@ =~= kn_temp());
    }
    v
}

/// The bytes of `linear_accel_ms2`.
pub open spec fn kn_lin() -> Seq<u8> {
    seq![108u8, 105u8, 110u8, 101u8, 97u8, 114u8, 95u8, 97u8, 99u8, 99u8, 101u8, 108u8, 95u8, 109u8, 115u8, 50u8]
}

fn kn_lin_x() -> (v: Vec<u8>)
    ensures
        v@ == kn_lin(),
{
    let mut v: Vec<u8> = Vec::new();
    v.push(108u8); v.push(105u8); v.push(110u8); v.push(101u8); v.push(97u8); v.push(114u8); v.push(95u8); v.push(97u8); v.push(99u8); v.push(99u8); v.push(101u8); v.push(108u8); v.push(95u8); v.push(109u8); v.push(115u8); v.push(50u8);
    proof {
        assert(v@ =~= kn_lin());
    }
    v
}

/// The bytes of `gyro_rads`.
pub open spec fn kn_gyro() -> Seq<u8> {
    seq![103u8, 121u8, 114u8, 111u8, 95u8, 114u8, 97u8, 100u8, 115u8]
}

fn kn_gyro_x() -> (v: Vec<u8>)
    ensures
        v@ == kn_gyro(),
{
    let mut v: Vec<u8> = Vec::new();
    v.push(103u8); v.push(121u8); v.push(114u8); v.push(111u8); v.push(95u8); v.push(114u8); v.push(97u8); v.push(100u8); v.push(115u8);
    proof {
        assert(v@ =~= kn_gyro());
    }
    v
}

/// The bytes of `mag_uT`.
pub open spec fn kn_mag() -> Seq<u8> {
    seq![109u8, 97u8, 103u8, 95u8, 117u8, 84u8]
}

fn kn_mag_x() -> (v: Vec<u8>)
    ensures
        v@ == kn_mag(),
{
    let mut v: Vec<u8> = Vec::new();
    v.push(109u8); v.push(97u8); v.push(103u8); v.push(95u8); v.push(117u8); v.push(84u8);
    proof {
        assert(v@ =~= kn_mag());
    }
    v
}

/// The bytes of `calib`.
pub open spec fn kn_calib() -> Seq<u8> {
    seq![99u8, 97u8, 108u8, 105u8, 98u8]
}

fn kn_calib_x() -> (v: Vec<u8>)
    ensures
        v@ == kn_calib(),
{
    let mut v: Vec<u8> = Vec::new();
    v.push(99u8); v.push(97u8); v.push(108u8); v.push(105u8); v.push(98u8);
    proof {
        assert(v@ =~= kn_calib());
    }
    v
}

/// The bytes of `rssi`.
pub open spec fn kn_rssi() -> Seq<u8> {
    seq![114u8, 115u8, 115u8, 105u8]
}

fn kn_rssi_x() -> (v: Vec<u8>)
    ensures
        v@ == kn_rssi(),
{
    let mut v: Vec<u8> = Vec::new();
    v.push(114u8); v.push(115u8); v.push(115u8); v.push(105u8);
    proof {
        assert(v@ =~= kn_rssi());
    }
    v
}

/// The bytes of `x`.
pub open spec fn kn_x() -> Seq<u8> {
    seq![120u8]
}

fn kn_x_x() -> (v: Vec<u8>)
    ensures
        v@ == kn_x(),
{
    let mut v: Vec<u8> = Vec::new();
    v.push(120u8);
    proof {
        assert(v@ =~= kn_x());
    }
    v
}

/// The bytes of `y`.
pub open spec fn kn_y() -> Seq<u8> {
    seq![121u8]
}

fn kn_y_x() -> (v: Vec<u8>)
    ensures
        v@ == kn_y(),
{
    let mut v: Vec<u8> = Vec::new();
    v.push(121u8);
    proof {
        assert(v@ =~= kn_y());
    }
    v
}

/// The bytes of `z`.
pub open spec fn kn_z() -> Seq<u8> {
    seq![122u8]
}

fn kn_z_x() -> (v: Vec<u8>)
    ensures
        v@ == kn_z(),
{
    let mut v: Vec<u8> = Vec::new();
    v.push(122u8);
    proof {
        assert(v@ =~= kn_z());
    }
    v
}

/// The bytes of `sys`.
pub open spec fn kn_sys() -> Seq<u8> {
    seq![115u8, 121u8, 115u8]
}

fn kn_sys_x() -> (v: Vec<u8>)
    ensures
        v@ == kn_sys(),
{
    let mut v: Vec<u8> = Vec::new();
    v.push(115u8); v.push(121u8); v.push(115u8);
    proof {
        assert(v@ =~= kn_sys());
    }
    v
}

/// The bytes of `gyro`.
pub open spec fn kn_cgyro() -> Seq<u8> {
    seq![103u8, 121u8, 114u8, 111u8]
}

fn kn_cgyro_x() -> (v: Vec<u8>)
    ensures
        v@ == kn_cgyro(),
{
    let mut v: Vec<u8> = Vec::new();
    v.push(103u8); v.push(121u8); v.push(114u8); v.push(111u8);
    proof {
        assert(v@ =~= kn_cgyro());
    }
    v
}

/// The bytes of `accel`.
pub open spec fn kn_caccel() -> Seq<u8> {
    seq![97u8, 99u8, 99u8, 101u8, 108u8]
}

fn kn_caccel_x() -> (v: Vec<u8>)
    ensures
        v@ == kn_caccel(),
{
    let mut v: Vec<u8> = Vec::new();
    v.push(97u8); v.push(99u8); v.push(99u8); v.push(101u8); v.push(108u8);
    proof {
        assert(v@ =~= kn_caccel());
    }
    v
}

/// The bytes of `mag`.
pub open spec fn kn_cmag() -> Seq<u8> {
    seq![109u8, 97u8, 103u8]
}

fn kn_cmag_x() -> (v: Vec<u8>)
    ensures
        v@ == kn_cmag(),
{
    let mut v: Vec<u8> = Vec::new();
    v.push(109u8); v.push(97u8); v.push(103u8);
    proof {
        assert(v@ =~= kn_cmag());
    }
    v
}

/// The bytes of `true`.
pub open spec fn w_true() -> Seq<u8> {
    seq![116u8, 114u8, 117u8, 101u8]
}

fn w_true_x() -> (v: Vec<u8>)
    ensures
        v@ == w_true(),
{
    let mut v: Vec<u8> = Vec::new();
    v.push(116u8); v.push(114u8); v.push(117u8); v.push(101u8);
    proof {
        assert(v@ =~= w_true());
    }
    v
}

/// The bytes of `false`.
pub open spec fn w_false() -> Seq<u8> {
    seq![102u8, 97u8, 108u8, 115u8, 101u8]
}

fn w_false_x() -> (v: Vec<u8>)
    ensures
        v@ == w_false(),
{
    let mut v: Vec<u8> = Vec::new();
    v.push(102u8); v.push(97u8); v.push(108u8); v.push(115u8); v.push(101u8);
    proof {
        assert(v@ =~= w_false());
    }
    v
}

/// The bytes of `null`.
pub open spec fn w_null() -> Seq<u8> {
    seq![110u8, 117u8, 108u8, 108u8]
}

fn w_null_x() -> (v: Vec<u8>)
    ensures
        v@ == w_null(),
{
    let mut v: Vec<u8> = Vec::new();
    v.push(110u8); v.push(117u8); v.push(108u8); v.push(108u8);
    proof {
        assert(v@ =~= w_null());
    }
    v
}

// ------------------------------------------------------------- whitespace

pub open spec fn is_ws(b: u8) -> bool {
    b == 32 || b == 9 || b == 10 || b == 13
}

/// First position at or after `i` holding a non-whitespace byte.
pub open spec fn skip_ws(s: Seq<u8>, i: int) -> int
    decreases s.len() - i,
{
    if 0 <= i < s.len() && is_ws(s[i]) {
        skip_ws(s, i + 1)
    } else {
        i
    }
}

pub proof fn lemma_skip_ws(s: Seq<u8>, i: int)
    requires
        0 <= i <= s.len(),
    ensures
        i <= skip_ws(s, i) <= s.len(),
    decreases s.len() - i,
{
    if i < s.len() && is_ws(s[i]) {
        lemma_skip_ws(s, i + 1);
    }
}

fn skip_ws_x(s: &Vec<u8>, i: usize) -> (j: usize)
    requires
        i <= s.len(),
    ensures
        j == skip_ws(s@, i as int),
        i <= j <= s.len(),
{
    let mut j: usize = i;
    while j < s.len() && (s[j] == 32 || s[j] == 9 || s[j] == 10 || s[j] == 13)
        invariant
            i <= j <= s.len(),
            skip_ws(s@, i as int) == skip_ws(s@, j as int),
        decreases s.len() - j,
    {
        j = j + 1;
    }
    j
}

// ------------------------------------------------- skipping unknown values

/// A literal word sitting at `i`.
pub open spec fn word_at(s: Seq<u8>, i: int, w: Seq<u8>) -> bool {
    0 <= i && i + w.len() <= s.len() && s.subrange(i, i + w.len() as int) == w
}

/// Escape characters allowed after a backslash inside a skipped string.
pub open spec fn esc_char(b: u8) -> bool {
    b == 34 || b == 92 || b == 47 || b == 98 || b == 102 || b == 110 || b == 114 || b == 116
}

/// Position after the closing quote of a string body starting at `i` (the
/// opening quote already consumed); escape pairs are allowed but not
/// validated beyond their lead character.
pub open spec fn skip_str_tail(s: Seq<u8>, i: int) -> Option<int>
    decreases s.len() - i,
{
    if i < 0 || i >= s.len() {
        None
    } else if s[i] == 34 {
        Some(i + 1)
    } else if s[i] == 92 {
        if i + 1 < s.len() && esc_char(s[i + 1]) {
            skip_str_tail(s, i + 2)
        } else {
            None
        }
    } else if s[i] >= 32 {
        skip_str_tail(s, i + 1)
    } else {
        None
    }
}

fn skip_str_tail_x(s: &Vec<u8>, i: usize) -> (r: Option<usize>)
    requires
        i <= s.len(),
    ensures
        match r {
            Some(j) => skip_str_tail(s@, i as int) == Some(j as int) && i < j <= s.len(),
            None => skip_str_tail(s@, i as int) is None,
        },
{
    let mut j: usize = i;
    loop
        invariant
            i <= j <= s.len(),
            skip_str_tail(s@, i as int) == skip_str_tail(s@, j as int),
        decreases s.len() - j,
    {
        if j >= s.len() {
            return None;
        }
        if s[j] == 34 {
            return Some(j + 1);
        }
        if s[j] == 92 {
            if j + 1 < s.len() && (s[j + 1] == 34 || s[j + 1] == 92 || s[j + 1] == 47 || s[j + 1]
                == 98 || s[j + 1] == 102 || s[j + 1] == 110 || s[j + 1] == 114 || s[j + 1]
                == 116) {
                j = j + 2;
            } else {
                return None;
            }
        } else if s[j] >= 32 {
            j = j + 1;
        } else {
            return None;
        }
    }
}

/// Position after one whole JSON value starting at or after `i` (leading
/// whitespace allowed): an object, an array, a string, a number, `true`,
/// `false` or `null`. Only the shape is checked; this is how an unknown
/// member's value is passed over.
pub open spec fn skip_value(s: Seq<u8>, i: int) -> Option<int>
    decreases s.len() - i, 2int,
{
    let j = skip_ws(s, i);
    if !(i <= j && j < s.len()) {
        None
    } else if s[j] == 34 {
        skip_str_tail(s, j + 1)
    } else if s[j] == 123 {
        skip_obj_tail(s, j + 1)
    } else if s[j] == 91 {
        skip_arr_tail(s, j + 1)
    } else if s[j] == 116 {
        if word_at(s, j, w_true()) {
            Some(j + 4)
        } else {
            None
        }
    } else if s[j] == 102 {
        if word_at(s, j, w_false()) {
            Some(j + 5)
        } else {
            None
        }
    } else if s[j] == 110 {
        if word_at(s, j, w_null()) {
            Some(j + 4)
        } else {
            None
        }
    } else {
        num_end(s, j)
    }
}

/// Members of an object after its `{`, up to and including the matching
/// `}`.
pub open spec fn skip_obj_tail(s: Seq<u8>, i: int) -> Option<int>
    decreases s.len() - i, 1int,
{
    let j = skip_ws(s, i);
    if !(i <= j && j < s.len()) {
        None
    } else if s[j] == 125 {
        Some(j + 1)
    } else {
        skip_members(s, j)
    }
}

/// A non-empty member list starting at a key position, up to and including
/// the closing `}`.
pub open spec fn skip_members(s: Seq<u8>, i: int) -> Option<int>
    decreases s.len() - i, 0int,
{
    if !(0 <= i < s.len() && s[i] == 34) {
        None
    } else {
        match skip_str_tail(s, i + 1) {
            None => None,
            Some(a) => {
                let c = skip_ws(s, a);
                if !(a <= c && c < s.len() && s[c] == 58 && a > i) {
                    None
                } else {
                    match skip_value(s, c + 1) {
                        None => None,
                        Some(e) => {
                            let d = skip_ws(s, e);
                            if !(c + 1 <= e && e <= d && d < s.len()) {
                                None
                            } else if s[d] == 125 {
                                Some(d + 1)
                            } else if s[d] == 44 {
                                let n = skip_ws(s, d + 1);
                                if d + 1 <= n <= s.len() {
                                    skip_members(s, n)
                                } else {
                                    None
                                }
                            } else {
                                None
                            }
                        },
                    }
                }
            },
        }
    }
}

/// Elements of an array after its `[`, up to and including the matching
/// `]`.
pub open spec fn skip_arr_tail(s: Seq<u8>, i: int) -> Option<int>
    decreases s.len() - i, 4int,
{
    let j = skip_ws(s, i);
    if !(i <= j && j < s.len()) {
        None
    } else if s[j] == 93 {
        Some(j + 1)
    } else {
        skip_elems(s, i)
    }
}

/// A non-empty element list, up to and including the closing `]`.
pub open spec fn skip_elems(s: Seq<u8>, i: int) -> Option<int>
    decreases s.len() - i, 3int,
{
    match skip_value(s, i) {
        None => None,
        Some(e) => {
            let d = skip_ws(s, e);
            if !(i < e && e <= d && d < s.len()) {
                None
            } else if s[d] == 93 {
                Some(d + 1)
            } else if s[d] == 44 {
                skip_elems(s, d + 1)
            } else {
                None
            }
        },
    }
}

fn word_check(s: &Vec<u8>, i: usize, w: &Vec<u8>) -> (r: bool)
    requires
        i <= s.len(),
    ensures
        r == word_at(s@, i as int, w@),
{
    if s.len() - i < w.len() {
        return false;
    }
    let mut k: usize = 0;
    while k < w.len()
        invariant
            0 <= k <= w.len(),
            i + w.len() <= s.len(),
            forall|t: int| 0 <= t < k ==> s@[i + t] == w@[t],
        decreases w.len() - k,
    {
        if s[i + k] != w[k] {
            proof {
                assert(s@.subrange(i as int, i + w@.len())[k as int] == s@[i + k]);
            }
            return false;
        }
        k = k + 1;
    }
    proof {
        assert(s@.subrange(i as int, i + w@.len()) =~= w@);
    }
    true
}

fn span_eq(s: &Vec<u8>, a: usize, b: usize, w: &Vec<u8>) -> (r: bool)
    requires
        a <= b <= s.len(),
    ensures
        r == (s@.subrange(a as int, b as int) == w@),
{
    if b - a != w.len() {
        proof {
            assert(s@.subrange(a as int, b as int).len() == b - a);
        }
        return false;
    }
    let mut k: usize = 0;
    while k < w.len()
        invariant
            0 <= k <= w.len(),
            a + w.len() == b <= s.len(),
            forall|t: int| 0 <= t < k ==> s@[a + t] == w@[t],
        decreases w.len() - k,
    {
        if s[a + k] != w[k] {
            proof {
                assert(s@.subrange(a as int, b as int)[k as int] == s@[a + k]);
            }
            return false;
        }
        k = k + 1;
    }
    proof {
        assert(s@.subrange(a as int, b as int) =~= w@);
    }
    true
}

fn skip_value_x(s: &Vec<u8>, i: usize) -> (r: Option<usize>)
    requires
        i <= s.len(),
    ensures
        match r {
            Some(j) => skip_value(s@, i as int) == Some(j as int) && i < j <= s.len(),
            None => skip_value(s@, i as int) is None,
        },
    decreases s.len() - i, 2int,
{
    let j: usize = skip_ws_x(s, i);
    if j >= s.len() {
        return None;
    }
    if s[j] == 34 {
        skip_str_tail_x(s, j + 1)
    } else if s[j] == 123 {
        skip_obj_tail_x(s, j + 1)
    } else if s[j] == 91 {
        skip_arr_tail_x(s, j + 1)
    } else if s[j] == 116 {
        let w = w_true_x();
        if word_check(s, j, &w) {
            Some(j + 4)
        } else {
            None
        }
    } else if s[j] == 102 {
        let w = w_false_x();
        if word_check(s, j, &w) {
            Some(j + 5)
        } else {
            None
        }
    } else if s[j] == 110 {
        let w = w_null_x();
        if word_check(s, j, &w) {
            Some(j + 4)
        } else {
            None
        }
    } else {
        lex::num_end_x(s, j)
    }
}

fn skip_obj_tail_x(s: &Vec<u8>, i: usize) -> (r: Option<usize>)
    requires
        i <= s.len(),
    ensures
        match r {
            Some(j) => skip_obj_tail(s@, i as int) == Some(j as int) && i < j <= s.len(),
            None => skip_obj_tail(s@, i as int) is None,
        },
    decreases s.len() - i, 1int,
{
    let j: usize = skip_ws_x(s, i);
    if j >= s.len() {
        return None;
    }
    if s[j] == 125 {
        Some(j + 1)
    } else {
        skip_members_x(s, j)
    }
}

fn skip_members_x(s: &Vec<u8>, i: usize) -> (r: Option<usize>)
    requires
        i <= s.len(),
    ensures
        match r {
            Some(j) => skip_members(s@, i as int) == Some(j as int) && i < j <= s.len(),
            None => skip_members(s@, i as int) is None,
        },
    decreases s.len() - i, 0int,
{
    if !(i < s.len() && s[i] == 34) {
        return None;
    }
    let a: usize = match skip_str_tail_x(s, i + 1) {
        Some(a) => a,
        None => {
            return None;
        },
    };
    let c: usize = skip_ws_x(s, a);
    if !(c < s.len() && s[c] == 58) {
        return None;
    }
    let e: usize = match skip_value_x(s, c + 1) {
        Some(e) => e,
        None => {
            return None;
        },
    };
    let d: usize = skip_ws_x(s, e);
    if d >= s.len() {
        return None;
    }
    if s[d] == 125 {
        Some(d + 1)
    } else if s[d] == 44 {
        let n: usize = skip_ws_x(s, d + 1);
        skip_members_x(s, n)
    } else {
        None
    }
}

fn skip_arr_tail_x(s: &Vec<u8>, i: usize) -> (r: Option<usize>)
    requires
        i <= s.len(),
    ensures
        match r {
            Some(j) => skip_arr_tail(s@, i as int) == Some(j as int) && i < j <= s.len(),
            None => skip_arr_tail(s@, i as int) is None,
        },
    decreases s.len() - i, 4int,
{
    let j: usize = skip_ws_x(s, i);
    if j >= s.len() {
        return None;
    }
    if s[j] == 93 {
        Some(j + 1)
    } else {
        skip_elems_x(s, i)
    }
}

fn skip_elems_x(s: &Vec<u8>, i: usize) -> (r: Option<usize>)
    requires
        i <= s.len(),
    ensures
        match r {
            Some(j) => skip_elems(s@, i as int) == Some(j as int) && i < j <= s.len(),
            None => skip_elems(s@, i as int) is None,
        },
    decreases s.len() - i, 3int,
{
    let e: usize = match skip_value_x(s, i) {
        Some(e) => e,
        None => {
            return None;
        },
    };
    let d: usize = skip_ws_x(s, e);
    if d >= s.len() {
        return None;
    }
    if s[d] == 93 {
        Some(d + 1)
    } else if s[d] == 44 {
        skip_elems_x(s, d + 1)
    } else {
        None
    }
}

// --------------------------------------------------------- member lookup

/// Value position of the first member named `key`, walking from the key
/// position `i` of a member list; `None` when the list ends without it.
/// Callers validate the whole object first, so a `None` from a malformed
/// tail coincides with the object being rejected.
pub open spec fn find_member(s: Seq<u8>, i: int, key: Seq<u8>) -> Option<int>
    decreases s.len() - i,
{
    if !(0 <= i < s.len() && s[i] == 34) {
        None
    } else {
        match str_end(s, i) {
            None => None,
            Some((k, a)) => {
                let c = skip_ws(s, a);
                if !(i < a && a <= c && c < s.len() && s[c] == 58) {
                    None
                } else if k == key {
                    let v = skip_ws(s, c + 1);
                    Some(v)
                } else {
                    match skip_value(s, c + 1) {
                        None => None,
                        Some(e) => {
                            let d = skip_ws(s, e);
                            if !(c + 1 < e && e <= d && d < s.len()) {
                                None
                            } else if s[d] == 44 {
                                let n = skip_ws(s, d + 1);
                                if d + 1 <= n <= s.len() {
                                    find_member(s, n, key)
                                } else {
                                    None
                                }
                            } else {
                                None
                            }
                        },
                    }
                }
            },
        }
    }
}

/// How many members of the list are named `key`.
pub open spec fn count_member(s: Seq<u8>, i: int, key: Seq<u8>) -> nat
    decreases s.len() - i,
{
    if !(0 <= i < s.len() && s[i] == 34) {
        0
    } else {
        match str_end(s, i) {
            None => 0,
            Some((k, a)) => {
                let hit: nat = if k == key {
                    1
                } else {
                    0
                };
                let c = skip_ws(s, a);
                if !(i < a && a <= c && c < s.len() && s[c] == 58) {
                    0
                } else {
                    match skip_value(s, c + 1) {
                        None => 0,
                        Some(e) => {
                            let d = skip_ws(s, e);
                            if !(c + 1 < e && e <= d && d < s.len()) {
                                0
                            } else if s[d] == 44 {
                                let n = skip_ws(s, d + 1);
                                if d + 1 <= n <= s.len() {
                                    hit + count_member(s, n, key)
                                } else {
                                    0
                                }
                            } else {
                                hit
                            }
                        },
                    }
                }
            },
        }
    }
}

/// Value position of the member named `key` of the object whose `{` sits
/// just before `i`; `None` when absent.
pub open spec fn lookup(s: Seq<u8>, i: int, key: Seq<u8>) -> Option<int> {
    let j = skip_ws(s, i);
    if 0 <= j < s.len() && s[j] == 34 {
        find_member(s, j, key)
    } else {
        None
    }
}

/// The member named `key` appears more than once.
pub open spec fn dup_member(s: Seq<u8>, i: int, key: Seq<u8>) -> bool {
    let j = skip_ws(s, i);
    if 0 <= j < s.len() && s[j] == 34 {
        count_member(s, j, key) >= 2
    } else {
        false
    }
}

fn find_member_x(s: &Vec<u8>, i: usize, key: &Vec<u8>) -> (r: Option<usize>)
    requires
        i <= s.len(),
    ensures
        match r {
            Some(v) => find_member(s@, i as int, key@) == Some(v as int) && v <= s.len(),
            None => find_member(s@, i as int, key@) is None,
        },
    decreases s.len() - i,
{
    if !(i < s.len() && s[i] == 34) {
        return None;
    }
    let qe: usize = lex::scan_str_x(s, i + 1);
    if !(qe < s.len() && s[qe] == 34) {
        proof {
            assert(str_end(s@, i as int) is None);
        }
        return None;
    }
    let a: usize = qe + 1;
    proof {
        assert(str_end(s@, i as int) == Some((s@.subrange(i + 1, qe as int), a as int)));
    }
    let c: usize = skip_ws_x(s, a);
    if !(c < s.len() && s[c] == 58) {
        return None;
    }
    if span_eq(s, i + 1, qe, key) {
        let v: usize = skip_ws_x(s, c + 1);
        Some(v)
    } else {
        let e: usize = match skip_value_x(s, c + 1) {
            Some(e) => e,
            None => {
                return None;
            },
        };
        let d: usize = skip_ws_x(s, e);
        if d >= s.len() {
            return None;
        }
        if s[d] == 44 {
            let n: usize = skip_ws_x(s, d + 1);
            find_member_x(s, n, key)
        } else {
            None
        }
    }
}

/// `n` capped at two: all a duplicate check needs.
pub open spec fn cap2(n: nat) -> nat {
    if n >= 2 {
        2
    } else {
        n
    }
}

fn count_member_x(s: &Vec<u8>, i: usize, key: &Vec<u8>) -> (r: usize)
    requires
        i <= s.len(),
    ensures
        r as nat == cap2(count_member(s@, i as int, key@)),
    decreases s.len() - i,
{
    if !(i < s.len() && s[i] == 34) {
        return 0;
    }
    let qe: usize = lex::scan_str_x(s, i + 1);
    if !(qe < s.len() && s[qe] == 34) {
        proof {
            assert(str_end(s@, i as int) is None);
        }
        return 0;
    }
    let a: usize = qe + 1;
    proof {
        assert(str_end(s@, i as int) == Some((s@.subrange(i + 1, qe as int), a as int)));
    }
    let hit: usize = if span_eq(s, i + 1, qe, key) {
        1
    } else {
        0
    };
    let c: usize = skip_ws_x(s, a);
    if !(c < s.len() && s[c] == 58) {
        return 0;
    }
    let e: usize = match skip_value_x(s, c + 1) {
        Some(e) => e,
        None => {
            return 0;
        },
    };
    let d: usize = skip_ws_x(s, e);
    if d >= s.len() {
        return 0;
    }
    if s[d] == 44 {
        let n: usize = skip_ws_x(s, d + 1);
        let rest: usize = count_member_x(s, n, key);
        if hit + rest >= 2 {
            2
        } else {
            hit + rest
        }
    } else {
        hit
    }
}

fn lookup_x(s: &Vec<u8>, i: usize, key: &Vec<u8>) -> (r: Option<usize>)
    requires
        i <= s.len(),
    ensures
        match r {
            Some(v) => lookup(s@, i as int, key@) == Some(v as int) && v <= s.len(),
            None => lookup(s@, i as int, key@) is None,
        },
{
    let j: usize = skip_ws_x(s, i);
    if j < s.len() && s[j] == 34 {
        find_member_x(s, j, key)
    } else {
        None
    }
}

fn dup_member_x(s: &Vec<u8>, i: usize, key: &Vec<u8>) -> (r: bool)
    requires
        i <= s.len(),
    ensures
        r == dup_member(s@, i as int, key@),
{
    let j: usize = skip_ws_x(s, i);
    if j < s.len() && s[j] == 34 {
        let n: usize = count_member_x(s, j, key);
        n == 2
    } else {
        false
    }
}

// ----------------------------------------------------------- value forms

/// The member's value is the literal `null`.
pub open spec fn null_at(s: Seq<u8>, v: int) -> bool {
    word_at(s, v, w_null())
}

/// A signed 64-bit integer value: the whole value slot must be one integer
/// token, so `1.5` or `1e3` is no timestamp.
pub open spec fn g_i64_at(s: Seq<u8>, v: int) -> Option<int> {
    match int_end(s, v) {
        Some(j) => if j < s.len() && lex::num_cont(s[j]) {
            None
        } else {
            let w = int_tok_val(s, v, j);
            if i64::MIN <= w <= i64::MAX {
                Some(w)
            } else {
                None
            }
        },
        None => None,
    }
}

/// A signed 32-bit integer value, as `g_i64_at`.
pub open spec fn g_i32_at(s: Seq<u8>, v: int) -> Option<int> {
    match int_end(s, v) {
        Some(j) => if j < s.len() && lex::num_cont(s[j]) {
            None
        } else {
            let w = int_tok_val(s, v, j);
            if i32::MIN <= w <= i32::MAX {
                Some(w)
            } else {
                None
            }
        },
        None => None,
    }
}

/// A numeric reading: the token is kept verbatim.
pub open spec fn g_num_at(s: Seq<u8>, v: int) -> Option<Seq<u8>> {
    match num_end(s, v) {
        Some(j) => Some(s.subrange(v, j)),
        None => None,
    }
}

/// A string value without escape sequences; its body.
pub open spec fn g_str_at(s: Seq<u8>, v: int) -> Option<Seq<u8>> {
    match str_end(s, v) {
        Some((d, j)) => Some(d),
        None => None,
    }
}

pub open spec fn g_bool_at(s: Seq<u8>, v: int) -> Option<bool> {
    if word_at(s, v, w_true()) {
        Some(true)
    } else if word_at(s, v, w_false()) {
        Some(false)
    } else {
        None
    }
}

fn null_at_x(s: &Vec<u8>, v: usize) -> (r: bool)
    requires
        v <= s.len(),
    ensures
        r == null_at(s@, v as int),
{
    let w = w_null_x();
    word_check(s, v, &w)
}

fn g_i64_x(s: &Vec<u8>, v: usize) -> (r: Option<i64>)
    requires
        v <= s.len(),
    ensures
        match r {
            Some(w) => g_i64_at(s@, v as int) == Some(w as int),
            None => g_i64_at(s@, v as int) is None,
        },
{
    match lex::parse_int_x(s, v, 0x8000_0000_0000_0000u64, 0x7fff_ffff_ffff_ffffu64) {
        Some((w, j)) => {
            if j < s.len() && (48 <= s[j] && s[j] <= 57 || s[j] == 46 || s[j] == 101 || s[j]
                == 69) {
                None
            } else {
                Some(w)
            }
        },
        None => None,
    }
}

fn g_i32_x(s: &Vec<u8>, v: usize) -> (r: Option<i32>)
    requires
        v <= s.len(),
    ensures
        match r {
            Some(w) => g_i32_at(s@, v as int) == Some(w as int),
            None => g_i32_at(s@, v as int) is None,
        },
{
    match lex::parse_int_x(s, v, 2147483648u64, 2147483647u64) {
        Some((w, j)) => {
            if j < s.len() && (48 <= s[j] && s[j] <= 57 || s[j] == 46 || s[j] == 101 || s[j]
                == 69) {
                None
            } else {
                Some(w as i32)
            }
        },
        None => None,
    }
}

fn g_num_x(s: &Vec<u8>, v: usize) -> (r: Option<Number>)
    requires
        v <= s.len(),
    ensures
        match r {
            Some(n) => g_num_at(s@, v as int) == Some(n@) && num_tok(n@),
            None => g_num_at(s@, v as int) is None,
        },
{
    match lex::num_end_x(s, v) {
        Some(j) => {
            proof {
                lex::lemma_num_tok_sub(s@, v as int, j as int);
            }
            Some(Number { tok: lex::copy_range(s, v, j) })
        },
        None => None,
    }
}

fn g_str_x(s: &Vec<u8>, v: usize) -> (r: Option<Vec<u8>>)
    requires
        v <= s.len(),
    ensures
        match r {
            Some(d) => g_str_at(s@, v as int) == Some(d@) && str_ok(d@),
            None => g_str_at(s@, v as int) is None,
        },
{
    if !(v < s.len() && s[v] == 34) {
        return None;
    }
    let qe: usize = lex::scan_str_x(s, v + 1);
    if !(qe < s.len() && s[qe] == 34) {
        return None;
    }
    let d = lex::copy_range(s, v + 1, qe);
    proof {
        assert(str_end(s@, v as int) == Some((d@, qe + 1 as int)));
        lex::lemma_str_end_props(s@, v as int, d@, qe + 1);
    }
    Some(d)
}

fn g_bool_x(s: &Vec<u8>, v: usize) -> (r: Option<bool>)
    requires
        v <= s.len(),
    ensures
        r == g_bool_at(s@, v as int),
{
    let t = w_true_x();
    if word_check(s, v, &t) {
        Some(true)
    } else {
        let f = w_false_x();
        if word_check(s, v, &f) {
            Some(false)
        } else {
            None
        }
    }
}

// -------------------------------------------------------- optional members

/// An optional numeric member: absent or `null` is `None`; present, it
/// must be one number token.
pub open spec fn opt_num_member(s: Seq<u8>, i: int, key: Seq<u8>) -> Option<Option<Seq<u8>>> {
    match lookup(s, i, key) {
        None => Some(None),
        Some(v) => if null_at(s, v) {
            Some(None)
        } else {
            match g_num_at(s, v) {
                Some(t) => Some(Some(t)),
                None => None,
            }
        },
    }
}

fn opt_num_member_x(s: &Vec<u8>, i: usize, key: &Vec<u8>) -> (r: Option<Option<Number>>)
    requires
        i <= s.len(),
    ensures
        match r {
            Some(o) => opt_num_member(s@, i as int, key@) == Some(opt_view(o))
                && crate::models::opt_num_wf(opt_view(o)),
            None => opt_num_member(s@, i as int, key@) is None,
        },
{
    match lookup_x(s, i, key) {
        None => Some(None),
        Some(v) => {
            if null_at_x(s, v) {
                Some(None)
            } else {
                match g_num_x(s, v) {
                    Some(n) => Some(Some(n)),
                    None => None,
                }
            }
        },
    }
}

/// A 3-axis object value: `x`, `y` and `z` members, each one number token,
/// in any order, unknown members ignored.
pub open spec fn g_v3_at(s: Seq<u8>, i: int) -> Option<Vector3Model> {
    if !(0 <= i < s.len() && s[i] == 123 && skip_obj_tail(s, i + 1) is Some) {
        None
    } else if dup_member(s, i + 1, kn_x()) || dup_member(s, i + 1, kn_y()) || dup_member(
        s,
        i + 1,
        kn_z(),
    ) {
        None
    } else {
        match lookup(s, i + 1, kn_x()) {
            None => None,
            Some(vx) => match g_num_at(s, vx) {
                None => None,
                Some(x) => match lookup(s, i + 1, kn_y()) {
                    None => None,
                    Some(vy) => match g_num_at(s, vy) {
                        None => None,
                        Some(y) => match lookup(s, i + 1, kn_z()) {
                            None => None,
                            Some(vz) => match g_num_at(s, vz) {
                                None => None,
                                Some(z) => Some(Vector3Model { x, y, z }),
                            },
                        },
                    },
                },
            },
        }
    }
}

fn g_v3_x(s: &Vec<u8>, i: usize) -> (r: Option<Vector3>)
    requires
        i <= s.len(),
    ensures
        match r {
            Some(v) => g_v3_at(s@, i as int) == Some(v@) && crate::models::vector3_wf(v@),
            None => g_v3_at(s@, i as int) is None,
        },
{
    if !(i < s.len() && s[i] == 123) {
        return None;
    }
    if skip_obj_tail_x(s, i + 1).is_none() {
        return None;
    }
    let kx = kn_x_x();
    let ky = kn_y_x();
    let kz = kn_z_x();
    if dup_member_x(s, i + 1, &kx) || dup_member_x(s, i + 1, &ky) || dup_member_x(s, i + 1, &kz) {
        return None;
    }
    let vx: usize = match lookup_x(s, i + 1, &kx) {
        Some(v) => v,
        None => {
            return None;
        },
    };
    let x: Number = match g_num_x(s, vx) {
        Some(n) => n,
        None => {
            return None;
        },
    };
    let vy: usize = match lookup_x(s, i + 1, &ky) {
        Some(v) => v,
        None => {
            return None;
        },
    };
    let y: Number = match g_num_x(s, vy) {
        Some(n) => n,
        None => {
            return None;
        },
    };
    let vz: usize = match lookup_x(s, i + 1, &kz) {
        Some(v) => v,
        None => {
            return None;
        },
    };
    let z: Number = match g_num_x(s, vz) {
        Some(n) => n,
        None => {
            return None;
        },
    };
    Some(Vector3 { x, y, z })
}

/// An optional 3-axis member.
pub open spec fn opt_v3_member(s: Seq<u8>, i: int, key: Seq<u8>) -> Option<
    Option<Vector3Model>,
> {
    match lookup(s, i, key) {
        None => Some(None),
        Some(v) => if null_at(s, v) {
            Some(None)
        } else {
            match g_v3_at(s, v) {
                Some(w) => Some(Some(w)),
                None => None,
            }
        },
    }
}

fn opt_v3_member_x(s: &Vec<u8>, i: usize, key: &Vec<u8>) -> (r: Option<Option<Vector3>>)
    requires
        i <= s.len(),
    ensures
        match r {
            Some(o) => opt_v3_member(s@, i as int, key@) == Some(opt_view(o))
                && crate::models::opt_vector3_wf(opt_view(o)),
            None => opt_v3_member(s@, i as int, key@) is None,
        },
{
    match lookup_x(s, i, key) {
        None => Some(None),
        Some(v) => {
            if null_at_x(s, v) {
                Some(None)
            } else {
                match g_v3_x(s, v) {
                    Some(w) => Some(Some(w)),
                    None => None,
                }
            }
        },
    }
}

/// The calibration object value: the four channels, each a 32-bit integer.
pub open spec fn g_calib_at(s: Seq<u8>, i: int) -> Option<CalibModel> {
    if !(0 <= i < s.len() && s[i] == 123 && skip_obj_tail(s, i + 1) is Some) {
        None
    } else if dup_member(s, i + 1, kn_sys()) || dup_member(s, i + 1, kn_cgyro()) || dup_member(
        s,
        i + 1,
        kn_caccel(),
    ) || dup_member(s, i + 1, kn_cmag()) {
        None
    } else {
        match lookup(s, i + 1, kn_sys()) {
            None => None,
            Some(v1) => match g_i32_at(s, v1) {
                None => None,
                Some(sys) => match lookup(s, i + 1, kn_cgyro()) {
                    None => None,
                    Some(v2) => match g_i32_at(s, v2) {
                        None => None,
                        Some(gyro) => match lookup(s, i + 1, kn_caccel()) {
                            None => None,
                            Some(v3) => match g_i32_at(s, v3) {
                                None => None,
                                Some(accel) => match lookup(s, i + 1, kn_cmag()) {
                                    None => None,
                                    Some(v4) => match g_i32_at(s, v4) {
                                        None => None,
                                        Some(mag) => Some(CalibModel { sys, gyro, accel, mag }),
                                    },
                                },
                            },
                        },
                    },
                },
            },
        }
    }
}

fn g_calib_x(s: &Vec<u8>, i: usize) -> (r: Option<Calib>)
    requires
        i <= s.len(),
    ensures
        match r {
            Some(c) => g_calib_at(s@, i as int) == Some(c@),
            None => g_calib_at(s@, i as int) is None,
        },
{
    if !(i < s.len() && s[i] == 123) {
        return None;
    }
    if skip_obj_tail_x(s, i + 1).is_none() {
        return None;
    }
    let k1 = kn_sys_x();
    let k2 = kn_cgyro_x();
    let k3 = kn_caccel_x();
    let k4 = kn_cmag_x();
    if dup_member_x(s, i + 1, &k1) || dup_member_x(s, i + 1, &k2) || dup_member_x(s, i + 1, &k3)
        || dup_member_x(s, i + 1, &k4) {
        return None;
    }
    let v1: usize = match lookup_x(s, i + 1, &k1) {
        Some(v) => v,
        None => {
            return None;
        },
    };
    let sys: i32 = match g_i32_x(s, v1) {
        Some(w) => w,
        None => {
            return None;
        },
    };
    let v2: usize = match lookup_x(s, i + 1, &k2) {
        Some(v) => v,
        None => {
            return None;
        },
    };
    let gyro: i32 = match g_i32_x(s, v2) {
        Some(w) => w,
        None => {
            return None;
        },
    };
    let v3: usize = match lookup_x(s, i + 1, &k3) {
        Some(v) => v,
        None => {
            return None;
        },
    };
    let accel: i32 = match g_i32_x(s, v3) {
        Some(w) => w,
        None => {
            return None;
        },
    };
    let v4: usize = match lookup_x(s, i + 1, &k4) {
        Some(v) => v,
        None => {
            return None;
        },
    };
    let mag: i32 = match g_i32_x(s, v4) {
        Some(w) => w,
        None => {
            return None;
        },
    };
    Some(Calib { sys, gyro, accel, mag })
}

/// The wifi object value: its signal strength member.
pub open spec fn g_wifi_at(s: Seq<u8>, i: int) -> Option<WifiModel> {
    if !(0 <= i < s.len() && s[i] == 123 && skip_obj_tail(s, i + 1) is Some) {
        None
    } else if dup_member(s, i + 1, kn_rssi()) {
        None
    } else {
        match lookup(s, i + 1, kn_rssi()) {
            None => None,
            Some(v) => match g_i32_at(s, v) {
                None => None,
                Some(rssi) => Some(WifiModel { rssi }),
            },
        }
    }
}

fn g_wifi_x(s: &Vec<u8>, i: usize) -> (r: Option<Wifi>)
    requires
        i <= s.len(),
    ensures
        match r {
            Some(w) => g_wifi_at(s@, i as int) == Some(w@),
            None => g_wifi_at(s@, i as int) is None,
        },
{
    if !(i < s.len() && s[i] == 123) {
        return None;
    }
    if skip_obj_tail_x(s, i + 1).is_none() {
        return None;
    }
    let k = kn_rssi_x();
    if dup_member_x(s, i + 1, &k) {
        return None;
    }
    let v: usize = match lookup_x(s, i + 1, &k) {
        Some(v) => v,
        None => {
            return None;
        },
    };
    match g_i32_x(s, v) {
        Some(rssi) => Some(Wifi { rssi }),
        None => None,
    }
}

/// The orientation object value: the mandatory health flag and the
/// independently optional readings, in any order.
pub open spec fn g_bno_at(s: Seq<u8>, i: int) -> Option<BnoModel> {
    if !(0 <= i < s.len() && s[i] == 123 && skip_obj_tail(s, i + 1) is Some) {
        None
    } else if dup_member(s, i + 1, kn_ok()) || dup_member(s, i + 1, kn_heading()) || dup_member(
        s,
        i + 1,
        kn_roll(),
    ) || dup_member(s, i + 1, kn_pitch()) || dup_member(s, i + 1, kn_temp()) || dup_member(
        s,
        i + 1,
        kn_lin(),
    ) || dup_member(s, i + 1, kn_gyro()) || dup_member(s, i + 1, kn_mag()) || dup_member(
        s,
        i + 1,
        kn_calib(),
    ) {
        None
    } else {
        match lookup(s, i + 1, kn_ok()) {
            None => None,
            Some(vo) => match g_bool_at(s, vo) {
                None => None,
                Some(ok) => match opt_num_member(s, i + 1, kn_heading()) {
                    None => None,
                    Some(heading) => match opt_num_member(s, i + 1, kn_roll()) {
                        None => None,
                        Some(roll) => match opt_num_member(s, i + 1, kn_pitch()) {
                            None => None,
                            Some(pitch) => match opt_num_member(s, i + 1, kn_temp()) {
                                None => None,
                                Some(temp) => match opt_v3_member(s, i + 1, kn_lin()) {
                                    None => None,
                                    Some(lin) => match opt_v3_member(s, i + 1, kn_gyro()) {
                                        None => None,
                                        Some(gyr) => match opt_v3_member(s, i + 1, kn_mag()) {
                                            None => None,
                                            Some(mag) => match opt_calib_member(s, i + 1) {
                                                None => None,
                                                Some(calib) => Some(
                                                    BnoModel {
                                                        ok,
                                                        heading_deg: heading,
                                                        roll_deg: roll,
                                                        pitch_deg: pitch,
                                                        temp_c: temp,
                                                        linear_accel_ms2: lin,
                                                        gyro_rads: gyr,
                                                        mag_uT: mag,
                                                        calib,
                                                    },
                                                ),
                                            },
                                        },
                                    },
                                },
                            },
                        },
                    },
                },
            },
        }
    }
}

/// An optional calibration member.
pub open spec fn opt_calib_member(s: Seq<u8>, i: int) -> Option<Option<CalibModel>> {
    match lookup(s, i, kn_calib()) {
        None => Some(None),
        Some(v) => if null_at(s, v) {
            Some(None)
        } else {
            match g_calib_at(s, v) {
                Some(c) => Some(Some(c)),
                None => None,
            }
        },
    }
}

fn opt_calib_member_x(s: &Vec<u8>, i: usize) -> (r: Option<Option<Calib>>)
    requires
        i <= s.len(),
    ensures
        match r {
            Some(o) => opt_calib_member(s@, i as int) == Some(opt_view(o)),
            None => opt_calib_member(s@, i as int) is None,
        },
{
    let k = kn_calib_x();
    match lookup_x(s, i, &k) {
        None => Some(None),
        Some(v) => {
            if null_at_x(s, v) {
                Some(None)
            } else {
                match g_calib_x(s, v) {
                    Some(c) => Some(Some(c)),
                    None => None,
                }
            }
        },
    }
}

fn g_bno_x(s: &Vec<u8>, i: usize) -> (r: Option<Bno055>)
    requires
        i <= s.len(),
    ensures
        match r {
            Some(b) => g_bno_at(s@, i as int) == Some(b@) && crate::models::bno_wf(b@),
            None => g_bno_at(s@, i as int) is None,
        },
{
    if !(i < s.len() && s[i] == 123) {
        return None;
    }
    if skip_obj_tail_x(s, i + 1).is_none() {
        return None;
    }
    let kok = kn_ok_x();
    let kh = kn_heading_x();
    let kr = kn_roll_x();
    let kp = kn_pitch_x();
    let kt = kn_temp_x();
    let kl = kn_lin_x();
    let kg = kn_gyro_x();
    let km = kn_mag_x();
    let kc = kn_calib_x();
    if dup_member_x(s, i + 1, &kok) || dup_member_x(s, i + 1, &kh) || dup_member_x(s, i + 1, &kr)
        || dup_member_x(s, i + 1, &kp) || dup_member_x(s, i + 1, &kt) || dup_member_x(
        s,
        i + 1,
        &kl,
    ) || dup_member_x(s, i + 1, &kg) || dup_member_x(s, i + 1, &km) || dup_member_x(
        s,
        i + 1,
        &kc,
    ) {
        return None;
    }
    let vo: usize = match lookup_x(s, i + 1, &kok) {
        Some(v) => v,
        None => {
            return None;
        },
    };
    let ok: bool = match g_bool_x(s, vo) {
        Some(b) => b,
        None => {
            return None;
        },
    };
    let heading: Option<Number> = match opt_num_member_x(s, i + 1, &kh) {
        Some(o) => o,
        None => {
            return None;
        },
    };
    let roll: Option<Number> = match opt_num_member_x(s, i + 1, &kr) {
        Some(o) => o,
        None => {
            return None;
        },
    };
    let pitch: Option<Number> = match opt_num_member_x(s, i + 1, &kp) {
        Some(o) => o,
        None => {
            return None;
        },
    };
    let temp: Option<Number> = match opt_num_member_x(s, i + 1, &kt) {
        Some(o) => o,
        None => {
            return None;
        },
    };
    let lin: Option<Vector3> = match opt_v3_member_x(s, i + 1, &kl) {
        Some(o) => o,
        None => {
            return None;
        },
    };
    let gyr: Option<Vector3> = match opt_v3_member_x(s, i + 1, &kg) {
        Some(o) => o,
        None => {
            return None;
        },
    };
    let mag: Option<Vector3> = match opt_v3_member_x(s, i + 1, &km) {
        Some(o) => o,
        None => {
            return None;
        },
    };
    let calib: Option<Calib> = match opt_calib_member_x(s, i + 1) {
        Some(o) => o,
        None => {
            return None;
        },
    };
    Some(
        Bno055 {
            ok,
            heading_deg: heading,
            roll_deg: roll,
            pitch_deg: pitch,
            temp_c: temp,
            linear_accel_ms2: lin,
            gyro_rads: gyr,
            mag_uT: mag,
            calib,
        },
    )
}

// ----------------------------------------------------------- whole record

/// The record read from the object whose `{` sits at `i`: mandatory `ts`
/// and `device`, the optional members in any order, unknown members
/// ignored.
#[verifier::opaque]
pub open spec fn g_payload_at(s: Seq<u8>, i: int) -> Option<PayloadModel> {
    if !(0 <= i < s.len() && s[i] == 123 && skip_obj_tail(s, i + 1) is Some) {
        None
    } else if dup_member(s, i + 1, kn_ts()) || dup_member(s, i + 1, kn_device()) || dup_member(
        s,
        i + 1,
        kn_wifi(),
    ) || dup_member(s, i + 1, kn_bno055()) || dup_member(s, i + 1, kn_ultra()) {
        None
    } else {
        match lookup(s, i + 1, kn_ts()) {
            None => None,
            Some(vt) => match g_i64_at(s, vt) {
                None => None,
                Some(ts) => match lookup(s, i + 1, kn_device()) {
                    None => None,
                    Some(vd) => match g_str_at(s, vd) {
                        None => None,
                        Some(device) => match opt_wifi_member(s, i + 1) {
                            None => None,
                            Some(wifi) => match opt_bno_member(s, i + 1) {
                                None => None,
                                Some(bno) => match opt_num_member(s, i + 1, kn_ultra()) {
                                    None => None,
                                    Some(ultra) => Some(
                                        PayloadModel {
                                            ts,
                                            device,
                                            wifi,
                                            bno055: bno,
                                            ultrasonic_cm: ultra,
                                        },
                                    ),
                                },
                            },
                        },
                    },
                },
            },
        }
    }
}

/// An optional wifi member.
pub open spec fn opt_wifi_member(s: Seq<u8>, i: int) -> Option<Option<WifiModel>> {
    match lookup(s, i, kn_wifi()) {
        None => Some(None),
        Some(v) => if null_at(s, v) {
            Some(None)
        } else {
            match g_wifi_at(s, v) {
                Some(w) => Some(Some(w)),
                None => None,
            }
        },
    }
}

/// An optional orientation member.
pub open spec fn opt_bno_member(s: Seq<u8>, i: int) -> Option<Option<BnoModel>> {
    match lookup(s, i, kn_bno055()) {
        None => Some(None),
        Some(v) => if null_at(s, v) {
            Some(None)
        } else {
            match g_bno_at(s, v) {
                Some(b) => Some(Some(b)),
                None => None,
            }
        },
    }
}

/// The general-presentation reading of a whole payload: one JSON value,
/// nothing but whitespace after it, and that value is a record object.
pub open spec fn g_decode(s: Seq<u8>) -> Option<PayloadModel> {
    match skip_value(s, 0) {
        None => None,
        Some(e) => if skip_ws(s, e) == s.len() as int {
            g_payload_at(s, skip_ws(s, 0))
        } else {
            None
        },
    }
}

fn opt_wifi_member_x(s: &Vec<u8>, i: usize) -> (r: Option<Option<Wifi>>)
    requires
        i <= s.len(),
    ensures
        match r {
            Some(o) => opt_wifi_member(s@, i as int) == Some(opt_view(o)),
            None => opt_wifi_member(s@, i as int) is None,
        },
{
    let k = kn_wifi_x();
    match lookup_x(s, i, &k) {
        None => Some(None),
        Some(v) => {
            if null_at_x(s, v) {
                Some(None)
            } else {
                match g_wifi_x(s, v) {
                    Some(w) => Some(Some(w)),
                    None => None,
                }
            }
        },
    }
}

fn opt_bno_member_x(s: &Vec<u8>, i: usize) -> (r: Option<Option<Bno055>>)
    requires
        i <= s.len(),
    ensures
        match r {
            Some(o) => opt_bno_member(s@, i as int) == Some(opt_view(o)) && (match opt_view(o) {
                Some(b) => crate::models::bno_wf(b),
                None => true,
            }),
            None => opt_bno_member(s@, i as int) is None,
        },
{
    let k = kn_bno055_x();
    match lookup_x(s, i, &k) {
        None => Some(None),
        Some(v) => {
            if null_at_x(s, v) {
                Some(None)
            } else {
                match g_bno_x(s, v) {
                    Some(b) => Some(Some(b)),
                    None => None,
                }
            }
        },
    }
}

/// The general-presentation decoder, exactly as `g_decode` says; a
/// returned record is well-formed.
pub fn g_decode_x(payload: &Vec<u8>) -> (r: Option<SensorPayload>)
    ensures
        match r {
            Some(rec) => g_decode(payload@) == Some(rec@) && rec.wf(),
            None => g_decode(payload@) is None,
        },
{
    proof {
        reveal(g_payload_at);
    }
    let e: usize = match skip_value_x(payload, 0) {
        Some(e) => e,
        None => {
            return None;
        },
    };
    if skip_ws_x(payload, e) != payload.len() {
        return None;
    }
    let b: usize = skip_ws_x(payload, 0);
    if !(b < payload.len() && payload[b] == 123) {
        return None;
    }
    if skip_obj_tail_x(payload, b + 1).is_none() {
        return None;
    }
    let kt = kn_ts_x();
    let kd = kn_device_x();
    let kw = kn_wifi_x();
    let kb = kn_bno055_x();
    let ku = kn_ultra_x();
    if dup_member_x(payload, b + 1, &kt) || dup_member_x(payload, b + 1, &kd) || dup_member_x(
        payload,
        b + 1,
        &kw,
    ) || dup_member_x(payload, b + 1, &kb) || dup_member_x(payload, b + 1, &ku) {
        return None;
    }
    let vt: usize = match lookup_x(payload, b + 1, &kt) {
        Some(v) => v,
        None => {
            return None;
        },
    };
    let ts: i64 = match g_i64_x(payload, vt) {
        Some(w) => w,
        None => {
            return None;
        },
    };
    let vd: usize = match lookup_x(payload, b + 1, &kd) {
        Some(v) => v,
        None => {
            return None;
        },
    };
    let device: Vec<u8> = match g_str_x(payload, vd) {
        Some(d) => d,
        None => {
            return None;
        },
    };
    let wifi: Option<Wifi> = match opt_wifi_member_x(payload, b + 1) {
        Some(o) => o,
        None => {
            return None;
        },
    };
    let bno: Option<Bno055> = match opt_bno_member_x(payload, b + 1) {
        Some(o) => o,
        None => {
            return None;
        },
    };
    let ultra: Option<Number> = match opt_num_member_x(payload, b + 1, &ku) {
        Some(o) => o,
        None => {
            return None;
        },
    };
    Some(SensorPayload { ts, device, wifi, bno055: bno, ultrasonic_cm: ultra })
}

} // verus!
