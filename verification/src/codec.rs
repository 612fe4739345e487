//! The payload codec. `payload_rep` is the serialized form of a record and
//! `parse_payload_s` its deterministic inverse grammar over the raw bytes;
//! `decode_spec` accepts that canonical form and, through the
//! general-presentation reader in `relaxed`, every other JSON presentation
//! of the same schema. The exec decoder and encoder return exactly what
//! those spec functions say, and `lemma_decode_encode` proves the round
//! trip: decoding an encoded record yields the record itself, every present
//! field preserved and every absent field still absent.

use vstd::prelude::*;
use crate::lex;
use crate::lex::{int_rep, num_end, num_tok, parse_int_s, str_end, str_ok, str_rep};
use crate::models::{
    Bno055, BnoModel, Calib, CalibModel, Number, PayloadModel, SensorPayload, Vector3,
    Vector3Model, Wifi, WifiModel, bno_wf, opt_num_wf, opt_vector3_wf, opt_view, vector3_wf,
};

verus! {

// ------------------------------------------------------------- literals

/// The bytes of `{"ts":`.
pub open spec fn l_open_ts() -> Seq<u8> {
    seq![123u8, 34u8, 116u8, 115u8, 34u8, 58u8]
}

fn l_open_ts_x() -> (v: Vec<u8>)
    ensures
        v@ == l_open_ts(),
{
    let mut v: Vec<u8> = Vec::new();
    v.push(123u8); v.push(34u8); v.push(116u8); v.push(115u8); v.push(34u8); v.push(58u8);
    proof {
        assert(v@ =~= l_open_ts());
    }
    v
}

/// The bytes of `,"device":`.
pub open spec fn l_device() -> Seq<u8> {
    seq![44u8, 34u8, 100u8, 101u8, 118u8, 105u8, 99u8, 101u8, 34u8, 58u8]
}

fn l_device_x() -> (v: Vec<u8>)
    ensures
        v@ == l_device(),
{
    let mut v: Vec<u8> = Vec::new();
    v.push(44u8); v.push(34u8); v.push(100u8); v.push(101u8); v.push(118u8); v.push(105u8); v.push(99u8); v.push(101u8); v.push(34u8); v.push(58u8);
    proof {
        assert(v@ =~= l_device());
    }
    v
}

/// The bytes of `,"wifi":{"rssi":`.
pub open spec fn l_wifi() -> Seq<u8> {
    seq![44u8, 34u8, 119u8, 105u8, 102u8, 105u8, 34u8, 58u8, 123u8, 34u8, 114u8, 115u8, 115u8, 105u8, 34u8, 58u8]
}

fn l_wifi_x() -> (v: Vec<u8>)
    ensures
        v@ == l_wifi(),
{
    let mut v: Vec<u8> = Vec::new();
    v.push(44u8); v.push(34u8); v.push(119u8); v.push(105u8); v.push(102u8); v.push(105u8); v.push(34u8); v.push(58u8); v.push(123u8); v.push(34u8); v.push(114u8); v.push(115u8); v.push(115u8); v.push(105u8); v.push(34u8); v.push(58u8);
    proof {
        assert(v@ =~= l_wifi());
    }
    v
}

/// The bytes of `,"bno055":`.
pub open spec fn l_bno() -> Seq<u8> {
    seq![44u8, 34u8, 98u8, 110u8, 111u8, 48u8, 53u8, 53u8, 34u8, 58u8]
}

fn l_bno_x() -> (v: Vec<u8>)
    ensures
        v@ == l_bno(),
{
    let mut v: Vec<u8> = Vec::new();
    v.push(44u8); v.push(34u8); v.push(98u8); v.push(110u8); v.push(111u8); v.push(48u8); v.push(53u8); v.push(53u8); v.push(34u8); v.push(58u8);
    proof {
        assert(v@ =~= l_bno());
    }
    v
}

/// The bytes of `,"ultrasonic_cm":`.
pub open spec fn l_ultra() -> Seq<u8> {
    seq![44u8, 34u8, 117u8, 108u8, 116u8, 114u8, 97u8, 115u8, 111u8, 110u8, 105u8, 99u8, 95u8, 99u8, 109u8, 34u8, 58u8]
}

fn l_ultra_x() -> (v: Vec<u8>)
    ensures
        v@ == l_ultra(),
{
    let mut v: Vec<u8> = Vec::new();
    v.push(44u8); v.push(34u8); v.push(117u8); v.push(108u8); v.push(116u8); v.push(114u8); v.push(97u8); v.push(115u8); v.push(111u8); v.push(110u8); v.push(105u8); v.push(99u8); v.push(95u8); v.push(99u8); v.push(109u8); v.push(34u8); v.push(58u8);
    proof {
        assert(v@ =~= l_ultra());
    }
    v
}

/// The bytes of `{"ok":`.
pub open spec fn l_bno_open() -> Seq<u8> {
    seq![123u8, 34u8, 111u8, 107u8, 34u8, 58u8]
}

fn l_bno_open_x() -> (v: Vec<u8>)
    ensures
        v@ == l_bno_open(),
{
    let mut v: Vec<u8> = Vec::new();
    v.push(123u8); v.push(34u8); v.push(111u8); v.push(107u8); v.push(34u8); v.push(58u8);
    proof {
        assert(v@ =~= l_bno_open());
    }
    v
}

/// The bytes of `,"heading_deg":`.
pub open spec fn l_heading() -> Seq<u8> {
    seq![44u8, 34u8, 104u8, 101u8, 97u8, 100u8, 105u8, 110u8, 103u8, 95u8, 100u8, 101u8, 103u8, 34u8, 58u8]
}

fn l_heading_x() -> (v: Vec<u8>)
    ensures
        v@ == l_heading(),
{
    let mut v: Vec<u8> = Vec::new();
    v.push(44u8); v.push(34u8); v.push(104u8); v.push(101u8); v.push(97u8); v.push(100u8); v.push(105u8); v.push(110u8); v.push(103u8); v.push(95u8); v.push(100u8); v.push(101u8); v.push(103u8); v.push(34u8); v.push(58u8);
    proof {
        assert(v@ =~= l_heading());
    }
    v
}

/// The bytes of `,"roll_deg":`.
pub open spec fn l_roll() -> Seq<u8> {
    seq![44u8, 34u8, 114u8, 111u8, 108u8, 108u8, 95u8, 100u8, 101u8, 103u8, 34u8, 58u8]
}

fn l_roll_x() -> (v: Vec<u8>)
    ensures
        v@ == l_roll(),
{
    let mut v: Vec<u8> = Vec::new();
    v.push(44u8); v.push(34u8); v.push(114u8); v.push(111u8); v.push(108u8); v.push(108u8); v.push(95u8); v.push(100u8); v.push(101u8); v.push(103u8); v.push(34u8); v.push(58u8);
    proof {
        assert(v@ =~= l_roll());
    }
    v
}

/// The bytes of `,"pitch_deg":`.
pub open spec fn l_pitch() -> Seq<u8> {
    seq![44u8, 34u8, 112u8, 105u8, 116u8, 99u8, 104u8, 95u8, 100u8, 101u8, 103u8, 34u8, 58u8]
}

fn l_pitch_x() -> (v: Vec<u8>)
    ensures
        v@ == l_pitch(),
{
    let mut v: Vec<u8> = Vec::new();
    v.push(44u8); v.push(34u8); v.push(112u8); v.push(105u8); v.push(116u8); v.push(99u8); v.push(104u8); v.push(95u8); v.push(100u8); v.push(101u8); v.push(103u8); v.push(34u8); v.push(58u8);
    proof {
        assert(v@ =~= l_pitch());
    }
    v
}

/// The bytes of `,"temp_c":`.
pub open spec fn l_temp() -> Seq<u8> {
    seq![44u8, 34u8, 116u8, 101u8, 109u8, 112u8, 95u8, 99u8, 34u8, 58u8]
}

fn l_temp_x() -> (v: Vec<u8>)
    ensures
        v@ == l_temp(),
{
    let mut v: Vec<u8> = Vec::new();
    v.push(44u8); v.push(34u8); v.push(116u8); v.push(101u8); v.push(109u8); v.push(112u8); v.push(95u8); v.push(99u8); v.push(34u8); v.push(58u8);
    proof {
        assert(v@ =~= l_temp());
    }
    v
}

/// The bytes of `,"linear_accel_ms2":`.
pub open spec fn l_lin() -> Seq<u8> {
    seq![44u8, 34u8, 108u8, 105u8, 110u8, 101u8, 97u8, 114u8, 95u8, 97u8, 99u8, 99u8, 101u8, 108u8, 95u8, 109u8, 115u8, 50u8, 34u8, 58u8]
}

fn l_lin_x() -> (v: Vec<u8>)
    ensures
        v@ == l_lin(),
{
    let mut v: Vec<u8> = Vec::new();
    v.push(44u8); v.push(34u8); v.push(108u8); v.push(105u8); v.push(110u8); v.push(101u8); v.push(97u8); v.push(114u8); v.push(95u8); v.push(97u8); v.push(99u8); v.push(99u8); v.push(101u8); v.push(108u8); v.push(95u8); v.push(109u8); v.push(115u8); v.push(50u8); v.push(34u8); v.push(58u8);
    proof {
        assert(v@ =~= l_lin());
    }
    v
}

/// The bytes of `,"gyro_rads":`.
pub open spec fn l_gyro() -> Seq<u8> {
    seq![44u8, 34u8, 103u8, 121u8, 114u8, 111u8, 95u8, 114u8, 97u8, 100u8, 115u8, 34u8, 58u8]
}

fn l_gyro_x() -> (v: Vec<u8>)
    ensures
        v@ == l_gyro(),
{
    let mut v: Vec<u8> = Vec::new();
    v.push(44u8); v.push(34u8); v.push(103u8); v.push(121u8); v.push(114u8); v.push(111u8); v.push(95u8); v.push(114u8); v.push(97u8); v.push(100u8); v.push(115u8); v.push(34u8); v.push(58u8);
    proof {
        assert(v@ =~= l_gyro());
    }
    v
}

/// The bytes of `,"mag_uT":`.
pub open spec fn l_mag() -> Seq<u8> {
    seq![44u8, 34u8, 109u8, 97u8, 103u8, 95u8, 117u8, 84u8, 34u8, 58u8]
}

fn l_mag_x() -> (v: Vec<u8>)
    ensures
        v@ == l_mag(),
{
    let mut v: Vec<u8> = Vec::new();
    v.push(44u8); v.push(34u8); v.push(109u8); v.push(97u8); v.push(103u8); v.push(95u8); v.push(117u8); v.push(84u8); v.push(34u8); v.push(58u8);
    proof {
        assert(v@ =~= l_mag());
    }
    v
}

/// The bytes of `,"calib":{"sys":`.
pub open spec fn l_calib() -> Seq<u8> {
    seq![44u8, 34u8, 99u8, 97u8, 108u8, 105u8, 98u8, 34u8, 58u8, 123u8, 34u8, 115u8, 121u8, 115u8, 34u8, 58u8]
}

fn l_calib_x() -> (v: Vec<u8>)
    ensures
        v@ == l_calib(),
{
    let mut v: Vec<u8> = Vec::new();
    v.push(44u8); v.push(34u8); v.push(99u8); v.push(97u8); v.push(108u8); v.push(105u8); v.push(98u8); v.push(34u8); v.push(58u8); v.push(123u8); v.push(34u8); v.push(115u8); v.push(121u8); v.push(115u8); v.push(34u8); v.push(58u8);
    proof {
        assert(v@ =~= l_calib());
    }
    v
}

/// The bytes of `{"x":`.
pub open spec fn l_v3_open() -> Seq<u8> {
    seq![123u8, 34u8, 120u8, 34u8, 58u8]
}

fn l_v3_open_x() -> (v: Vec<u8>)
    ensures
        v@ == l_v3_open(),
{
    let mut v: Vec<u8> = Vec::new();
    v.push(123u8); v.push(34u8); v.push(120u8); v.push(34u8); v.push(58u8);
    proof {
        assert(v@ =~= l_v3_open());
    }
    v
}

/// The bytes of `,"y":`.
pub open spec fn l_y() -> Seq<u8> {
    seq![44u8, 34u8, 121u8, 34u8, 58u8]
}

fn l_y_x() -> (v: Vec<u8>)
    ensures
        v@ == l_y(),
{
    let mut v: Vec<u8> = Vec::new();
    v.push(44u8); v.push(34u8); v.push(121u8); v.push(34u8); v.push(58u8);
    proof {
        assert(v@ =~= l_y());
    }
    v
}

/// The bytes of `,"z":`.
pub open spec fn l_z() -> Seq<u8> {
    seq![44u8, 34u8, 122u8, 34u8, 58u8]
}

fn l_z_x() -> (v: Vec<u8>)
    ensures
        v@ == l_z(),
{
    let mut v: Vec<u8> = Vec::new();
    v.push(44u8); v.push(34u8); v.push(122u8); v.push(34u8); v.push(58u8);
    proof {
        assert(v@ =~= l_z());
    }
    v
}

/// The bytes of `,"gyro":`.
pub open spec fn l_cgyro() -> Seq<u8> {
    seq![44u8, 34u8, 103u8, 121u8, 114u8, 111u8, 34u8, 58u8]
}

fn l_cgyro_x() -> (v: Vec<u8>)
    ensures
        v@ == l_cgyro(),
{
    let mut v: Vec<u8> = Vec::new();
    v.push(44u8); v.push(34u8); v.push(103u8); v.push(121u8); v.push(114u8); v.push(111u8); v.push(34u8); v.push(58u8);
    proof {
        assert(v@ =~= l_cgyro());
    }
    v
}

/// The bytes of `,"accel":`.
pub open spec fn l_caccel() -> Seq<u8> {
    seq![44u8, 34u8, 97u8, 99u8, 99u8, 101u8, 108u8, 34u8, 58u8]
}

fn l_caccel_x() -> (v: Vec<u8>)
    ensures
        v@ == l_caccel(),
{
    let mut v: Vec<u8> = Vec::new();
    v.push(44u8); v.push(34u8); v.push(97u8); v.push(99u8); v.push(99u8); v.push(101u8); v.push(108u8); v.push(34u8); v.push(58u8);
    proof {
        assert(v@ =~= l_caccel());
    }
    v
}

/// The bytes of `,"mag":`.
pub open spec fn l_cmag() -> Seq<u8> {
    seq![44u8, 34u8, 109u8, 97u8, 103u8, 34u8, 58u8]
}

fn l_cmag_x() -> (v: Vec<u8>)
    ensures
        v@ == l_cmag(),
{
    let mut v: Vec<u8> = Vec::new();
    v.push(44u8); v.push(34u8); v.push(109u8); v.push(97u8); v.push(103u8); v.push(34u8); v.push(58u8);
    proof {
        assert(v@ =~= l_cmag());
    }
    v
}

/// The bytes of `true`.
pub open spec fn l_true() -> Seq<u8> {
    seq![116u8, 114u8, 117u8, 101u8]
}

fn l_true_x() -> (v: Vec<u8>)
    ensures
        v@ == l_true(),
{
    let mut v: Vec<u8> = Vec::new();
    v.push(116u8); v.push(114u8); v.push(117u8); v.push(101u8);
    proof {
        assert(v@ =~= l_true());
    }
    v
}

/// The bytes of `false`.
pub open spec fn l_false() -> Seq<u8> {
    seq![102u8, 97u8, 108u8, 115u8, 101u8]
}

fn l_false_x() -> (v: Vec<u8>)
    ensures
        v@ == l_false(),
{
    let mut v: Vec<u8> = Vec::new();
    v.push(102u8); v.push(97u8); v.push(108u8); v.push(115u8); v.push(101u8);
    proof {
        assert(v@ =~= l_false());
    }
    v
}

// ---------------------------------------------------- spec-level parser

pub open spec fn lit_at(s: Seq<u8>, i: int, lit: Seq<u8>) -> bool {
    0 <= i && i + lit.len() <= s.len() && s.subrange(i, i + lit.len() as int) == lit
}

pub open spec fn eat_lit_s(s: Seq<u8>, i: int, lit: Seq<u8>) -> Option<int> {
    if lit_at(s, i, lit) {
        Some(i + lit.len() as int)
    } else {
        None
    }
}

pub open spec fn eat_byte_s(s: Seq<u8>, i: int, b: u8) -> Option<int> {
    if 0 <= i < s.len() && s[i] == b {
        Some(i + 1)
    } else {
        None
    }
}

pub open spec fn parse_bool_s(s: Seq<u8>, i: int) -> Option<(bool, int)> {
    match eat_lit_s(s, i, l_true()) {
        Some(j) => Some((true, j)),
        None => match eat_lit_s(s, i, l_false()) {
            Some(j) => Some((false, j)),
            None => None,
        },
    }
}

/// An optional `"key":<number>` member: an absent key is success without
/// progress, a present key must be followed by one number token.
pub open spec fn parse_num_field_s(s: Seq<u8>, i: int, key: Seq<u8>) -> Option<
    (Option<Seq<u8>>, int),
> {
    match eat_lit_s(s, i, key) {
        None => Some((None, i)),
        Some(j) => match num_end(s, j) {
            Some(k) => Some((Some(s.subrange(j, k)), k)),
            None => None,
        },
    }
}

pub open spec fn parse_v3_s(s: Seq<u8>, i: int) -> Option<(Vector3Model, int)> {
    match eat_lit_s(s, i, l_v3_open()) {
        None => None,
        Some(j1) => match num_end(s, j1) {
            None => None,
            Some(k1) => match eat_lit_s(s, k1, l_y()) {
                None => None,
                Some(j2) => match num_end(s, j2) {
                    None => None,
                    Some(k2) => match eat_lit_s(s, k2, l_z()) {
                        None => None,
                        Some(j3) => match num_end(s, j3) {
                            None => None,
                            Some(k3) => match eat_byte_s(s, k3, 125u8) {
                                None => None,
                                Some(j4) => Some(
                                    (
                                        Vector3Model {
                                            x: s.subrange(j1, k1),
                                            y: s.subrange(j2, k2),
                                            z: s.subrange(j3, k3),
                                        },
                                        j4,
                                    ),
                                ),
                            },
                        },
                    },
                },
            },
        },
    }
}

pub open spec fn parse_v3_field_s(s: Seq<u8>, i: int, key: Seq<u8>) -> Option<
    (Option<Vector3Model>, int),
> {
    match eat_lit_s(s, i, key) {
        None => Some((None, i)),
        Some(j) => match parse_v3_s(s, j) {
            Some((v, k)) => Some((Some(v), k)),
            None => None,
        },
    }
}

pub open spec fn parse_calib_field_s(s: Seq<u8>, i: int) -> Option<(Option<CalibModel>, int)> {
    match eat_lit_s(s, i, l_calib()) {
        None => Some((None, i)),
        Some(j1) => match parse_int_s(s, j1, i32::MIN as int, i32::MAX as int) {
            None => None,
            Some((sys, k1)) => match eat_lit_s(s, k1, l_cgyro()) {
                None => None,
                Some(j2) => match parse_int_s(s, j2, i32::MIN as int, i32::MAX as int) {
                    None => None,
                    Some((gyro, k2)) => match eat_lit_s(s, k2, l_caccel()) {
                        None => None,
                        Some(j3) => match parse_int_s(s, j3, i32::MIN as int, i32::MAX as int) {
                            None => None,
                            Some((accel, k3)) => match eat_lit_s(s, k3, l_cmag()) {
                                None => None,
                                Some(j4) => match parse_int_s(
                                    s,
                                    j4,
                                    i32::MIN as int,
                                    i32::MAX as int,
                                ) {
                                    None => None,
                                    Some((mag, k4)) => match eat_byte_s(s, k4, 125u8) {
                                        None => None,
                                        Some(j5) => Some(
                                            (Some(CalibModel { sys, gyro, accel, mag }), j5),
                                        ),
                                    },
                                },
                            },
                        },
                    },
                },
            },
        },
    }
}

pub open spec fn parse_wifi_field_s(s: Seq<u8>, i: int) -> Option<(Option<WifiModel>, int)> {
    match eat_lit_s(s, i, l_wifi()) {
        None => Some((None, i)),
        Some(j) => match parse_int_s(s, j, i32::MIN as int, i32::MAX as int) {
            None => None,
            Some((rssi, k)) => match eat_byte_s(s, k, 125u8) {
                None => None,
                Some(j2) => Some((Some(WifiModel { rssi }), j2)),
            },
        },
    }
}

pub open spec fn parse_bno_s(s: Seq<u8>, i: int) -> Option<(BnoModel, int)> {
    match eat_lit_s(s, i, l_bno_open()) {
        None => None,
        Some(j0) => match parse_bool_s(s, j0) {
            None => None,
            Some((ok, p0)) => match parse_num_field_s(s, p0, l_heading()) {
                None => None,
                Some((heading, p1)) => match parse_num_field_s(s, p1, l_roll()) {
                    None => None,
                    Some((roll, p2)) => match parse_num_field_s(s, p2, l_pitch()) {
                        None => None,
                        Some((pitch, p3)) => match parse_num_field_s(s, p3, l_temp()) {
                            None => None,
                            Some((temp, p4)) => match parse_v3_field_s(s, p4, l_lin()) {
                                None => None,
                                Some((lin, p5)) => match parse_v3_field_s(s, p5, l_gyro()) {
                                    None => None,
                                    Some((gyr, p6)) => match parse_v3_field_s(s, p6, l_mag()) {
                                        None => None,
                                        Some((mag, p7)) => match parse_calib_field_s(s, p7) {
                                            None => None,
                                            Some((calib, p8)) => match eat_byte_s(s, p8, 125u8) {
                                                None => None,
                                                Some(p9) => Some(
                                                    (
                                                        BnoModel {
                                                            ok,
                                                            heading_deg: heading,
                                                            roll_deg: roll,
                                                            pitch_deg: pitch,
                                                            temp_c: temp,
                                                            linear_accel_ms2: lin,
                                                            gyro_rads: gyr,
                                                            mag_uT: mag,
                                                            calib,
                                                        },
                                                        p9,
                                                    ),
                                                ),
                                            },
                                        },
                                    },
                                },
                            },
                        },
                    },
                },
            },
        },
    }
}

pub open spec fn parse_bno_field_s(s: Seq<u8>, i: int) -> Option<(Option<BnoModel>, int)> {
    match eat_lit_s(s, i, l_bno()) {
        None => Some((None, i)),
        Some(j) => match parse_bno_s(s, j) {
            Some((b, k)) => Some((Some(b), k)),
            None => None,
        },
    }
}

/// The grammar of one whole inbound payload, starting at `i`: a JSON object
/// holding `ts` and `device` and then the independently optional members,
/// in canonical order, with no padding between tokens.
#[verifier::opaque]
pub open spec fn parse_payload_s(s: Seq<u8>, i: int) -> Option<(PayloadModel, int)> {
    match eat_lit_s(s, i, l_open_ts()) {
        None => None,
        Some(a0) => match parse_int_s(s, a0, i64::MIN as int, i64::MAX as int) {
            None => None,
            Some((ts, a1)) => match eat_lit_s(s, a1, l_device()) {
                None => None,
                Some(a2) => match str_end(s, a2) {
                    None => None,
                    Some((device, a3)) => match parse_wifi_field_s(s, a3) {
                        None => None,
                        Some((wifi, a4)) => match parse_bno_field_s(s, a4) {
                            None => None,
                            Some((bno, a5)) => match parse_num_field_s(s, a5, l_ultra()) {
                                None => None,
                                Some((ultra, a6)) => match eat_byte_s(s, a6, 125u8) {
                                    None => None,
                                    Some(a7) => Some(
                                        (
                                            PayloadModel {
                                                ts,
                                                device,
                                                wifi,
                                                bno055: bno,
                                                ultrasonic_cm: ultra,
                                            },
                                            a7,
                                        ),
                                    ),
                                },
                            },
                        },
                    },
                },
            },
        },
    }
}

/// The canonical reading of a payload: it parses as one record in the
/// serializer's own form, with nothing left over.
pub open spec fn canonical_decode(s: Seq<u8>) -> Option<PayloadModel> {
    match parse_payload_s(s, 0) {
        Some((m, j)) => if j == s.len() {
            Some(m)
        } else {
            None
        },
        None => None,
    }
}

/// The decoder's full specification: a payload is accepted when it reads as
/// one record either in the canonical serialized form or in any other JSON
/// presentation of the same schema (members in any order, whitespace,
/// `null` optionals, unknown members ignored). `None` is the decode
/// failure: any malformed or incomplete payload is rejected outright,
/// never returned with blanks.
pub open spec fn decode_spec(s: Seq<u8>) -> Option<PayloadModel> {
    match canonical_decode(s) {
        Some(m) => Some(m),
        None => crate::relaxed::g_decode(s),
    }
}

// ------------------------------------------------------ serialized forms

pub open spec fn bool_rep(b: bool) -> Seq<u8> {
    if b {
        l_true()
    } else {
        l_false()
    }
}

pub open spec fn num_field_rep(key: Seq<u8>, o: Option<Seq<u8>>) -> Seq<u8> {
    match o {
        Some(t) => key + t,
        None => Seq::empty(),
    }
}

pub open spec fn v3_rep(v: Vector3Model) -> Seq<u8> {
    l_v3_open() + v.x + l_y() + v.y + l_z() + v.z + seq![125u8]
}

pub open spec fn v3_field_rep(key: Seq<u8>, o: Option<Vector3Model>) -> Seq<u8> {
    match o {
        Some(v) => key + v3_rep(v),
        None => Seq::empty(),
    }
}

pub open spec fn calib_field_rep(o: Option<CalibModel>) -> Seq<u8> {
    match o {
        Some(c) => l_calib() + int_rep(c.sys) + l_cgyro() + int_rep(c.gyro) + l_caccel()
            + int_rep(c.accel) + l_cmag() + int_rep(c.mag) + seq![125u8],
        None => Seq::empty(),
    }
}

pub open spec fn wifi_field_rep(o: Option<WifiModel>) -> Seq<u8> {
    match o {
        Some(w) => l_wifi() + int_rep(w.rssi) + seq![125u8],
        None => Seq::empty(),
    }
}

/// The members of the orientation block from stage `n` on, closing brace
/// included. Stages: heading, roll, pitch, temperature, linear
/// acceleration, angular rate, magnetic field, calibration.
pub open spec fn bno_tail_rep(b: BnoModel, n: int) -> Seq<u8>
    decreases 8 - n,
{
    if n >= 8 {
        seq![125u8]
    } else if n <= 0 {
        num_field_rep(l_heading(), b.heading_deg) + bno_tail_rep(b, 1)
    } else if n == 1 {
        num_field_rep(l_roll(), b.roll_deg) + bno_tail_rep(b, 2)
    } else if n == 2 {
        num_field_rep(l_pitch(), b.pitch_deg) + bno_tail_rep(b, 3)
    } else if n == 3 {
        num_field_rep(l_temp(), b.temp_c) + bno_tail_rep(b, 4)
    } else if n == 4 {
        v3_field_rep(l_lin(), b.linear_accel_ms2) + bno_tail_rep(b, 5)
    } else if n == 5 {
        v3_field_rep(l_gyro(), b.gyro_rads) + bno_tail_rep(b, 6)
    } else if n == 6 {
        v3_field_rep(l_mag(), b.mag_uT) + bno_tail_rep(b, 7)
    } else {
        calib_field_rep(b.calib) + bno_tail_rep(b, 8)
    }
}

pub open spec fn bno_rep(b: BnoModel) -> Seq<u8> {
    l_bno_open() + bool_rep(b.ok) + bno_tail_rep(b, 0)
}

pub open spec fn bno_field_rep(o: Option<BnoModel>) -> Seq<u8> {
    match o {
        Some(b) => l_bno() + bno_rep(b),
        None => Seq::empty(),
    }
}

/// The optional members of the payload from stage `n` on, closing brace
/// included. Stages: wifi, orientation block, range.
pub open spec fn payload_tail_rep(m: PayloadModel, n: int) -> Seq<u8>
    decreases 3 - n,
{
    if n >= 3 {
        seq![125u8]
    } else if n <= 0 {
        wifi_field_rep(m.wifi) + payload_tail_rep(m, 1)
    } else if n == 1 {
        bno_field_rep(m.bno055) + payload_tail_rep(m, 2)
    } else {
        num_field_rep(l_ultra(), m.ultrasonic_cm) + payload_tail_rep(m, 3)
    }
}

/// The canonical serialized form of a record: exactly the present members,
/// in canonical order.
pub open spec fn payload_rep(m: PayloadModel) -> Seq<u8> {
    l_open_ts() + int_rep(m.ts) + l_device() + str_rep(m.device) + payload_tail_rep(m, 0)
}

// --------------------------------------------------------- exec decoder

/// Rejection of a payload that is not one well-formed telemetry message.
#[derive(Debug, Clone, PartialEq, Eq)]
pub struct DecodeError;

fn eat_lit(s: &Vec<u8>, i: usize, lit: &Vec<u8>) -> (r: Option<usize>)
    requires
        i <= s.len(),
    ensures
        match r {
            Some(j) => eat_lit_s(s@, i as int, lit@) == Some(j as int) && i <= j <= s.len(),
            None => eat_lit_s(s@, i as int, lit@) is None,
        },
{
    if s.len() - i < lit.len() {
        return None;
    }
    let mut k: usize = 0;
    while k < lit.len()
        invariant
            0 <= k <= lit.len(),
            i + lit.len() <= s.len(),
            forall|t: int| 0 <= t < k ==> s@[i + t] == lit@[t],
        decreases lit.len() - k,
    {
        if s[i + k] != lit[k] {
            proof {
                assert(s@.subrange(i as int, i + lit@.len())[k as int] == s@[i + k]);
            }
            return None;
        }
        k = k + 1;
    }
    proof {
        assert(s@.subrange(i as int, i + lit@.len()) =~= lit@);
    }
    Some(i + lit.len())
}

fn eat_byte(s: &Vec<u8>, i: usize, b: u8) -> (r: Option<usize>)
    requires
        i <= s.len(),
    ensures
        match r {
            Some(j) => eat_byte_s(s@, i as int, b) == Some(j as int) && i < j <= s.len(),
            None => eat_byte_s(s@, i as int, b) is None,
        },
{
    if i < s.len() && s[i] == b {
        Some(i + 1)
    } else {
        None
    }
}

fn parse_bool_x(s: &Vec<u8>, i: usize) -> (r: Option<(bool, usize)>)
    requires
        i <= s.len(),
    ensures
        match r {
            Some(p) => parse_bool_s(s@, i as int) == Some((p.0, p.1 as int)) && i <= p.1
                <= s.len(),
            None => parse_bool_s(s@, i as int) is None,
        },
{
    let t = l_true_x();
    match eat_lit(s, i, &t) {
        Some(j) => Some((true, j)),
        None => {
            let f = l_false_x();
            match eat_lit(s, i, &f) {
                Some(j) => Some((false, j)),
                None => None,
            }
        },
    }
}

fn parse_num_field_x(s: &Vec<u8>, i: usize, key: &Vec<u8>) -> (r: Option<(Option<Number>, usize)>)
    requires
        i <= s.len(),
    ensures
        match r {
            Some(p) => {
                &&& parse_num_field_s(s@, i as int, key@) == Some((opt_view(p.0), p.1 as int))
                &&& i <= p.1 <= s.len()
                &&& opt_num_wf(opt_view(p.0))
            },
            None => parse_num_field_s(s@, i as int, key@) is None,
        },
{
    match eat_lit(s, i, key) {
        None => Some((None, i)),
        Some(j) => match lex::num_end_x(s, j) {
            None => None,
            Some(k) => {
                proof {
                    lex::lemma_num_tok_sub(s@, j as int, k as int);
                }
                let tok = lex::copy_range(s, j, k);
                Some((Some(Number { tok }), k))
            },
        },
    }
}

fn parse_v3_x(s: &Vec<u8>, i: usize) -> (r: Option<(Vector3, usize)>)
    requires
        i <= s.len(),
    ensures
        match r {
            Some(p) => {
                &&& parse_v3_s(s@, i as int) == Some((p.0@, p.1 as int))
                &&& i <= p.1 <= s.len()
                &&& vector3_wf(p.0@)
            },
            None => parse_v3_s(s@, i as int) is None,
        },
{
    let open = l_v3_open_x();
    let j1: usize = match eat_lit(s, i, &open) {
        Some(j) => j,
        None => {
            return None;
        },
    };
    let k1: usize = match lex::num_end_x(s, j1) {
        Some(k) => k,
        None => {
            return None;
        },
    };
    let ly = l_y_x();
    let j2: usize = match eat_lit(s, k1, &ly) {
        Some(j) => j,
        None => {
            return None;
        },
    };
    let k2: usize = match lex::num_end_x(s, j2) {
        Some(k) => k,
        None => {
            return None;
        },
    };
    let lz = l_z_x();
    let j3: usize = match eat_lit(s, k2, &lz) {
        Some(j) => j,
        None => {
            return None;
        },
    };
    let k3: usize = match lex::num_end_x(s, j3) {
        Some(k) => k,
        None => {
            return None;
        },
    };
    let j4: usize = match eat_byte(s, k3, 125u8) {
        Some(j) => j,
        None => {
            return None;
        },
    };
    proof {
        lex::lemma_num_tok_sub(s@, j1 as int, k1 as int);
        lex::lemma_num_tok_sub(s@, j2 as int, k2 as int);
        lex::lemma_num_tok_sub(s@, j3 as int, k3 as int);
    }
    let v = Vector3 {
        x: Number { tok: lex::copy_range(s, j1, k1) },
        y: Number { tok: lex::copy_range(s, j2, k2) },
        z: Number { tok: lex::copy_range(s, j3, k3) },
    };
    Some((v, j4))
}

fn parse_v3_field_x(s: &Vec<u8>, i: usize, key: &Vec<u8>) -> (r: Option<(Option<Vector3>, usize)>)
    requires
        i <= s.len(),
    ensures
        match r {
            Some(p) => {
                &&& parse_v3_field_s(s@, i as int, key@) == Some((opt_view(p.0), p.1 as int))
                &&& i <= p.1 <= s.len()
                &&& opt_vector3_wf(opt_view(p.0))
            },
            None => parse_v3_field_s(s@, i as int, key@) is None,
        },
{
    match eat_lit(s, i, key) {
        None => Some((None, i)),
        Some(j) => match parse_v3_x(s, j) {
            Some((v, k)) => Some((Some(v), k)),
            None => None,
        },
    }
}

fn parse_i32_x(s: &Vec<u8>, i: usize) -> (r: Option<(i32, usize)>)
    requires
        i <= s.len(),
    ensures
        match r {
            Some(p) => {
                &&& parse_int_s(s@, i as int, i32::MIN as int, i32::MAX as int) == Some(
                    (p.0 as int, p.1 as int),
                )
                &&& i < p.1 <= s.len()
            },
            None => parse_int_s(s@, i as int, i32::MIN as int, i32::MAX as int) is None,
        },
{
    match lex::parse_int_x(s, i, 2147483648u64, 2147483647u64) {
        Some((v, j)) => Some((v as i32, j)),
        None => None,
    }
}

fn parse_calib_field_x(s: &Vec<u8>, i: usize) -> (r: Option<(Option<Calib>, usize)>)
    requires
        i <= s.len(),
    ensures
        match r {
            Some(p) => {
                &&& parse_calib_field_s(s@, i as int) == Some((opt_view(p.0), p.1 as int))
                &&& i <= p.1 <= s.len()
            },
            None => parse_calib_field_s(s@, i as int) is None,
        },
{
    let key = l_calib_x();
    let j1: usize = match eat_lit(s, i, &key) {
        Some(j) => j,
        None => {
            return Some((None, i));
        },
    };
    let (sys, k1): (i32, usize) = match parse_i32_x(s, j1) {
        Some(p) => p,
        None => {
            return None;
        },
    };
    let kg = l_cgyro_x();
    let j2: usize = match eat_lit(s, k1, &kg) {
        Some(j) => j,
        None => {
            return None;
        },
    };
    let (gyro, k2): (i32, usize) = match parse_i32_x(s, j2) {
        Some(p) => p,
        None => {
            return None;
        },
    };
    let ka = l_caccel_x();
    let j3: usize = match eat_lit(s, k2, &ka) {
        Some(j) => j,
        None => {
            return None;
        },
    };
    let (accel, k3): (i32, usize) = match parse_i32_x(s, j3) {
        Some(p) => p,
        None => {
            return None;
        },
    };
    let km = l_cmag_x();
    let j4: usize = match eat_lit(s, k3, &km) {
        Some(j) => j,
        None => {
            return None;
        },
    };
    let (mag, k4): (i32, usize) = match parse_i32_x(s, j4) {
        Some(p) => p,
        None => {
            return None;
        },
    };
    let j5: usize = match eat_byte(s, k4, 125u8) {
        Some(j) => j,
        None => {
            return None;
        },
    };
    Some((Some(Calib { sys, gyro, accel, mag }), j5))
}

fn parse_wifi_field_x(s: &Vec<u8>, i: usize) -> (r: Option<(Option<Wifi>, usize)>)
    requires
        i <= s.len(),
    ensures
        match r {
            Some(p) => {
                &&& parse_wifi_field_s(s@, i as int) == Some((opt_view(p.0), p.1 as int))
                &&& i <= p.1 <= s.len()
            },
            None => parse_wifi_field_s(s@, i as int) is None,
        },
{
    let key = l_wifi_x();
    let j: usize = match eat_lit(s, i, &key) {
        Some(j) => j,
        None => {
            return Some((None, i));
        },
    };
    let (rssi, k): (i32, usize) = match parse_i32_x(s, j) {
        Some(p) => p,
        None => {
            return None;
        },
    };
    let j2: usize = match eat_byte(s, k, 125u8) {
        Some(j2) => j2,
        None => {
            return None;
        },
    };
    Some((Some(Wifi { rssi }), j2))
}

fn parse_bno_field_x(s: &Vec<u8>, i: usize) -> (r: Option<(Option<Bno055>, usize)>)
    requires
        i <= s.len(),
    ensures
        match r {
            Some(p) => {
                &&& parse_bno_field_s(s@, i as int) == Some((opt_view(p.0), p.1 as int))
                &&& i <= p.1 <= s.len()
                &&& match opt_view(p.0) {
                    Some(b) => bno_wf(b),
                    None => true,
                }
            },
            None => parse_bno_field_s(s@, i as int) is None,
        },
{
    let key = l_bno_x();
    let j0: usize = match eat_lit(s, i, &key) {
        Some(j) => j,
        None => {
            return Some((None, i));
        },
    };
    let open = l_bno_open_x();
    let j1: usize = match eat_lit(s, j0, &open) {
        Some(j) => j,
        None => {
            return None;
        },
    };
    let (ok, p0): (bool, usize) = match parse_bool_x(s, j1) {
        Some(p) => p,
        None => {
            return None;
        },
    };
    let kh = l_heading_x();
    let (heading, p1): (Option<Number>, usize) = match parse_num_field_x(s, p0, &kh) {
        Some(p) => p,
        None => {
            return None;
        },
    };
    let kr = l_roll_x();
    let (roll, p2): (Option<Number>, usize) = match parse_num_field_x(s, p1, &kr) {
        Some(p) => p,
        None => {
            return None;
        },
    };
    let kp = l_pitch_x();
    let (pitch, p3): (Option<Number>, usize) = match parse_num_field_x(s, p2, &kp) {
        Some(p) => p,
        None => {
            return None;
        },
    };
    let kt = l_temp_x();
    let (temp, p4): (Option<Number>, usize) = match parse_num_field_x(s, p3, &kt) {
        Some(p) => p,
        None => {
            return None;
        },
    };
    let kl = l_lin_x();
    let (lin, p5): (Option<Vector3>, usize) = match parse_v3_field_x(s, p4, &kl) {
        Some(p) => p,
        None => {
            return None;
        },
    };
    let kgy = l_gyro_x();
    let (gyr, p6): (Option<Vector3>, usize) = match parse_v3_field_x(s, p5, &kgy) {
        Some(p) => p,
        None => {
            return None;
        },
    };
    let kmg = l_mag_x();
    let (mag, p7): (Option<Vector3>, usize) = match parse_v3_field_x(s, p6, &kmg) {
        Some(p) => p,
        None => {
            return None;
        },
    };
    let (calib, p8): (Option<Calib>, usize) = match parse_calib_field_x(s, p7) {
        Some(p) => p,
        None => {
            return None;
        },
    };
    let p9: usize = match eat_byte(s, p8, 125u8) {
        Some(j) => j,
        None => {
            return None;
        },
    };
    let b = Bno055 {
        ok,
        heading_deg: heading,
        roll_deg: roll,
        pitch_deg: pitch,
        temp_c: temp,
        linear_accel_ms2: lin,
        gyro_rads: gyr,
        mag_uT: mag,
        calib,
    };
    Some((Some(b), p9))
}

/// The canonical-form reader, exactly as `canonical_decode` says.
fn decode_canonical_x(payload: &Vec<u8>) -> (r: Option<SensorPayload>)
    ensures
        match r {
            Some(rec) => canonical_decode(payload@) == Some(rec@) && rec.wf(),
            None => canonical_decode(payload@) is None,
        },
{
    proof {
        reveal(parse_payload_s);
    }
    let open = l_open_ts_x();
    let a0: usize = match eat_lit(payload, 0, &open) {
        Some(j) => j,
        None => {
            return None;
        },
    };
    let (ts, a1): (i64, usize) = match lex::parse_int_x(
        payload,
        a0,
        0x8000_0000_0000_0000u64,
        0x7fff_ffff_ffff_ffffu64,
    ) {
        Some(p) => p,
        None => {
            return None;
        },
    };
    let kd = l_device_x();
    let a2: usize = match eat_lit(payload, a1, &kd) {
        Some(j) => j,
        None => {
            return None;
        },
    };
    let a2q: usize = match eat_byte(payload, a2, 34u8) {
        Some(j) => j,
        None => {
            return None;
        },
    };
    let aq: usize = lex::scan_str_x(payload, a2q);
    let a3: usize = match eat_byte(payload, aq, 34u8) {
        Some(j) => j,
        None => {
            return None;
        },
    };
    let device = lex::copy_range(payload, a2q, aq);
    proof {
        assert(str_end(payload@, a2 as int) == Some((device@, a3 as int)));
        lex::lemma_str_end_props(payload@, a2 as int, device@, a3 as int);
    }
    let (wifi, a4): (Option<Wifi>, usize) = match parse_wifi_field_x(payload, a3) {
        Some(p) => p,
        None => {
            return None;
        },
    };
    let (bno, a5): (Option<Bno055>, usize) = match parse_bno_field_x(payload, a4) {
        Some(p) => p,
        None => {
            return None;
        },
    };
    let ku = l_ultra_x();
    let (ultra, a6): (Option<Number>, usize) = match parse_num_field_x(payload, a5, &ku) {
        Some(p) => p,
        None => {
            return None;
        },
    };
    let a7: usize = match eat_byte(payload, a6, 125u8) {
        Some(j) => j,
        None => {
            return None;
        },
    };
    if a7 != payload.len() {
        return None;
    }
    let rec = SensorPayload { ts, device, wifi, bno055: bno, ultrasonic_cm: ultra };
    Some(rec)
}

/// The Payload Decoder: a pure, total function from the raw payload bytes
/// to either one fully structured record or a rejection, exactly as
/// `decode_spec` says. No partial record is ever produced, and a decoded
/// record is well-formed.
pub fn decode(payload: &Vec<u8>) -> (r: Result<SensorPayload, DecodeError>)
    ensures
        match r {
            Ok(rec) => decode_spec(payload@) == Some(rec@) && rec.wf(),
            Err(_) => decode_spec(payload@) is None,
        },
{
    match decode_canonical_x(payload) {
        Some(rec) => Ok(rec),
        None => match crate::relaxed::g_decode_x(payload) {
            Some(rec) => Ok(rec),
            None => Err(DecodeError),
        },
    }
}

// --------------------------------------------------------- exec encoder

fn append_bytes(out: &mut Vec<u8>, add: &Vec<u8>)
    ensures
        final(out)@ == old(out)@ + add@,
{
    let mut k: usize = 0;
    while k < add.len()
        invariant
            0 <= k <= add.len(),
            out@ == old(out)@ + add@.subrange(0, k as int),
        decreases add.len() - k,
    {
        out.push(add[k]);
        k = k + 1;
        proof {
            assert(out@ =~= old(out)@ + add@.subrange(0, k as int));
        }
    }
    proof {
        assert(out@ =~= old(out)@ + add@);
    }
}

fn push_num_field(out: &mut Vec<u8>, key: &Vec<u8>, o: &Option<Number>)
    ensures
        final(out)@ == old(out)@ + num_field_rep(key@, opt_view(*o)),
{
    match o {
        Some(n) => {
            append_bytes(out, key);
            append_bytes(out, &n.tok);
            proof {
                assert(out@ =~= old(out)@ + num_field_rep(key@, opt_view(*o)));
            }
        },
        None => {
            proof {
                assert(out@ =~= old(out)@ + num_field_rep(key@, opt_view(*o)));
            }
        },
    }
}

fn push_v3(out: &mut Vec<u8>, v: &Vector3)
    ensures
        final(out)@ == old(out)@ + v3_rep(v@),
{
    let open = l_v3_open_x();
    append_bytes(out, &open);
    append_bytes(out, &v.x.tok);
    let ly = l_y_x();
    append_bytes(out, &ly);
    append_bytes(out, &v.y.tok);
    let lz = l_z_x();
    append_bytes(out, &lz);
    append_bytes(out, &v.z.tok);
    out.push(125u8);
    proof {
        assert(out@ =~= old(out)@ + v3_rep(v@));
    }
}

fn push_v3_field(out: &mut Vec<u8>, key: &Vec<u8>, o: &Option<Vector3>)
    ensures
        final(out)@ == old(out)@ + v3_field_rep(key@, opt_view(*o)),
{
    match o {
        Some(v) => {
            append_bytes(out, key);
            push_v3(out, v);
            proof {
                assert(out@ =~= old(out)@ + v3_field_rep(key@, opt_view(*o)));
            }
        },
        None => {
            proof {
                assert(out@ =~= old(out)@ + v3_field_rep(key@, opt_view(*o)));
            }
        },
    }
}

fn push_calib_field(out: &mut Vec<u8>, o: &Option<Calib>)
    ensures
        final(out)@ == old(out)@ + calib_field_rep(opt_view(*o)),
{
    match o {
        Some(c) => {
            let key = l_calib_x();
            append_bytes(out, &key);
            lex::push_i64_dec(out, c.sys as i64);
            let kg = l_cgyro_x();
            append_bytes(out, &kg);
            lex::push_i64_dec(out, c.gyro as i64);
            let ka = l_caccel_x();
            append_bytes(out, &ka);
            lex::push_i64_dec(out, c.accel as i64);
            let km = l_cmag_x();
            append_bytes(out, &km);
            lex::push_i64_dec(out, c.mag as i64);
            out.push(125u8);
            proof {
                assert(out@ =~= old(out)@ + calib_field_rep(opt_view(*o)));
            }
        },
        None => {
            proof {
                assert(out@ =~= old(out)@ + calib_field_rep(opt_view(*o)));
            }
        },
    }
}

fn push_wifi_field(out: &mut Vec<u8>, o: &Option<Wifi>)
    ensures
        final(out)@ == old(out)@ + wifi_field_rep(opt_view(*o)),
{
    match o {
        Some(w) => {
            let key = l_wifi_x();
            append_bytes(out, &key);
            lex::push_i64_dec(out, w.rssi as i64);
            out.push(125u8);
            proof {
                assert(out@ =~= old(out)@ + wifi_field_rep(opt_view(*o)));
            }
        },
        None => {
            proof {
                assert(out@ =~= old(out)@ + wifi_field_rep(opt_view(*o)));
            }
        },
    }
}

fn push_bool(out: &mut Vec<u8>, b: bool)
    ensures
        final(out)@ == old(out)@ + bool_rep(b),
{
    if b {
        let t = l_true_x();
        append_bytes(out, &t);
    } else {
        let f = l_false_x();
        append_bytes(out, &f);
    }
}

#[verifier::rlimit(100)]
fn push_bno_field(out: &mut Vec<u8>, o: &Option<Bno055>)
    ensures
        final(out)@ == old(out)@ + bno_field_rep(opt_view(*o)),
{
    match o {
        Some(b) => {
            let key = l_bno_x();
            append_bytes(out, &key);
            let open = l_bno_open_x();
            append_bytes(out, &open);
            push_bool(out, b.ok);
            let kh = l_heading_x();
            push_num_field(out, &kh, &b.heading_deg);
            let kr = l_roll_x();
            push_num_field(out, &kr, &b.roll_deg);
            let kp = l_pitch_x();
            push_num_field(out, &kp, &b.pitch_deg);
            let kt = l_temp_x();
            push_num_field(out, &kt, &b.temp_c);
            let kl = l_lin_x();
            push_v3_field(out, &kl, &b.linear_accel_ms2);
            let kgy = l_gyro_x();
            push_v3_field(out, &kgy, &b.gyro_rads);
            let kmg = l_mag_x();
            push_v3_field(out, &kmg, &b.mag_uT);
            push_calib_field(out, &b.calib);
            out.push(125u8);
            proof {
                let bm = b@;
                let u0 = old(out)@;
                let kk = l_bno();
                let oo = l_bno_open();
                let bb = bool_rep(bm.ok);
                let hh = num_field_rep(l_heading(), bm.heading_deg);
                let rr = num_field_rep(l_roll(), bm.roll_deg);
                let pp = num_field_rep(l_pitch(), bm.pitch_deg);
                let tt = num_field_rep(l_temp(), bm.temp_c);
                let li = v3_field_rep(l_lin(), bm.linear_accel_ms2);
                let gy = v3_field_rep(l_gyro(), bm.gyro_rads);
                let mg = v3_field_rep(l_mag(), bm.mag_uT);
                let ca = calib_field_rep(bm.calib);
                let ee = seq![125u8];
                assert(out@ =~= u0 + kk + oo + bb + hh + rr + pp + tt + li + gy + mg + ca + ee);
                let t7 = ca + ee;
                let t6 = mg + t7;
                let t5 = gy + t6;
                let t4 = li + t5;
                let t3 = tt + t4;
                let t2 = pp + t3;
                let t1 = rr + t2;
                let t0 = hh + t1;
                assert(bno_tail_rep(bm, 8) == ee);
                assert(bno_tail_rep(bm, 7) == ca + bno_tail_rep(bm, 8));
                assert(bno_tail_rep(bm, 6) == mg + bno_tail_rep(bm, 7));
                assert(bno_tail_rep(bm, 5) == gy + bno_tail_rep(bm, 6));
                assert(bno_tail_rep(bm, 4) == li + bno_tail_rep(bm, 5));
                assert(bno_tail_rep(bm, 3) == tt + bno_tail_rep(bm, 4));
                assert(bno_tail_rep(bm, 2) == pp + bno_tail_rep(bm, 3));
                assert(bno_tail_rep(bm, 1) == rr + bno_tail_rep(bm, 2));
                assert(bno_tail_rep(bm, 0) == hh + bno_tail_rep(bm, 1));
                lex::lemma_app_assoc(u0 + kk + oo + bb + hh + rr + pp + tt + li + gy + mg, ca, ee);
                lex::lemma_app_assoc(u0 + kk + oo + bb + hh + rr + pp + tt + li + gy, mg, t7);
                lex::lemma_app_assoc(u0 + kk + oo + bb + hh + rr + pp + tt + li, gy, t6);
                lex::lemma_app_assoc(u0 + kk + oo + bb + hh + rr + pp + tt, li, t5);
                lex::lemma_app_assoc(u0 + kk + oo + bb + hh + rr + pp, tt, t4);
                lex::lemma_app_assoc(u0 + kk + oo + bb + hh + rr, pp, t3);
                lex::lemma_app_assoc(u0 + kk + oo + bb + hh, rr, t2);
                lex::lemma_app_assoc(u0 + kk + oo + bb, hh, t1);
                assert(out@ == u0 + kk + oo + bb + t0);
                lex::lemma_app_assoc(u0 + kk + oo, bb, t0);
                lex::lemma_app_assoc(u0 + kk, oo, bb + t0);
                lex::lemma_app_assoc(oo, bb, t0);
                lex::lemma_app_assoc(u0, kk, oo + (bb + t0));
                assert(bno_rep(bm) == oo + (bb + t0));
                assert(out@ == u0 + (kk + bno_rep(bm)));
                assert(out@ == u0 + bno_field_rep(opt_view(*o)));
            }
        },
        None => {
            proof {
                assert(out@ =~= old(out)@ + bno_field_rep(opt_view(*o)));
            }
        },
    }
}

/// Serializes a record into its canonical payload bytes: exactly the
/// present members, nothing defaulted in for the absent ones.
pub fn encode(p: &SensorPayload) -> (out: Vec<u8>)
    ensures
        out@ == payload_rep(p@),
{
    let mut out: Vec<u8> = Vec::new();
    let open = l_open_ts_x();
    append_bytes(&mut out, &open);
    lex::push_i64_dec(&mut out, p.ts);
    let kd = l_device_x();
    append_bytes(&mut out, &kd);
    out.push(34u8);
    append_bytes(&mut out, &p.device);
    out.push(34u8);
    push_wifi_field(&mut out, &p.wifi);
    push_bno_field(&mut out, &p.bno055);
    let ku = l_ultra_x();
    push_num_field(&mut out, &ku, &p.ultrasonic_cm);
    out.push(125u8);
    proof {
        let m = p@;
        assert(payload_tail_rep(m, 2) == num_field_rep(l_ultra(), m.ultrasonic_cm)
            + payload_tail_rep(m, 3));
        assert(payload_tail_rep(m, 1) == bno_field_rep(m.bno055) + payload_tail_rep(m, 2));
        assert(payload_tail_rep(m, 0) == wifi_field_rep(m.wifi) + payload_tail_rep(m, 1));
        assert(out@ =~= payload_rep(m));
    }
    out
}


// ------------------------------------------------- round-trip: helpers

proof fn lemma_lit_not(s: Seq<u8>, i: int, lit: Seq<u8>, k: int)
    requires
        0 <= i,
        0 <= k < lit.len(),
        i + k < s.len(),
        s[i + k] != lit[k],
    ensures
        eat_lit_s(s, i, lit) is None,
{
    if lit_at(s, i, lit) {
        assert(s.subrange(i, i + lit.len() as int)[k] == s[i + k]);
    }
}

/// How the serialized orientation tail from stage `n` on begins: with the
/// closing brace, or with `,"` and then the first letter of the first
/// present member at or after stage `n` - the first letters of the member
/// keys are pairwise distinct, so no key of an earlier stage can match.
proof fn lemma_bno_tail_first(b: BnoModel, n: int)
    requires
        0 <= n <= 8,
    ensures
        ({
            let r = bno_tail_rep(b, n);
            &&& r.len() >= 1
            &&& (r[0] == 125 || (r.len() >= 3 && r[0] == 44 && r[1] == 34))
            &&& (r[0] == 44 ==> ((n <= 0 && b.heading_deg is Some && r[2] == 104) || (n <= 1
                && b.roll_deg is Some && r[2] == 114) || (n <= 2 && b.pitch_deg is Some && r[2]
                == 112) || (n <= 3 && b.temp_c is Some && r[2] == 116) || (n <= 4
                && b.linear_accel_ms2 is Some && r[2] == 108) || (n <= 5 && b.gyro_rads is Some
                && r[2] == 103) || (n <= 6 && b.mag_uT is Some && r[2] == 109) || (n <= 7
                && b.calib is Some && r[2] == 99)))
        }),
    decreases 8 - n,
{
    if n >= 8 {
        let r = bno_tail_rep(b, n);
        assert(r[0] == 125);
    } else {
        lemma_bno_tail_first(b, n + 1);
        let r = bno_tail_rep(b, n);
        let tl = bno_tail_rep(b, n + 1);
        if n <= 0 {
            let seg = num_field_rep(l_heading(), b.heading_deg);
            assert(r == seg + tl);
            match b.heading_deg {
                Some(t) => {
                assert(seg == l_heading() + t);
                assert(seg[0] == 44 && seg[1] == 34 && seg[2] == 104);
                    assert(r[0] == 44 && r[1] == 34 && r[2] == 104);
                },
                None => {
                    assert(seg =~= Seq::<u8>::empty());
                    assert(r =~= tl);
                },
            }
        } else if n == 1 {
            let seg = num_field_rep(l_roll(), b.roll_deg);
            assert(r == seg + tl);
            match b.roll_deg {
                Some(t) => {
                assert(seg == l_roll() + t);
                assert(seg[0] == 44 && seg[1] == 34 && seg[2] == 114);
                    assert(r[0] == 44 && r[1] == 34 && r[2] == 114);
                },
                None => {
                    assert(seg =~= Seq::<u8>::empty());
                    assert(r =~= tl);
                },
            }
        } else if n == 2 {
            let seg = num_field_rep(l_pitch(), b.pitch_deg);
            assert(r == seg + tl);
            match b.pitch_deg {
                Some(t) => {
                assert(seg == l_pitch() + t);
                assert(seg[0] == 44 && seg[1] == 34 && seg[2] == 112);
                    assert(r[0] == 44 && r[1] == 34 && r[2] == 112);
                },
                None => {
                    assert(seg =~= Seq::<u8>::empty());
                    assert(r =~= tl);
                },
            }
        } else if n == 3 {
            let seg = num_field_rep(l_temp(), b.temp_c);
            assert(r == seg + tl);
            match b.temp_c {
                Some(t) => {
                assert(seg == l_temp() + t);
                assert(seg[0] == 44 && seg[1] == 34 && seg[2] == 116);
                    assert(r[0] == 44 && r[1] == 34 && r[2] == 116);
                },
                None => {
                    assert(seg =~= Seq::<u8>::empty());
                    assert(r =~= tl);
                },
            }
        } else if n == 4 {
            let seg = v3_field_rep(l_lin(), b.linear_accel_ms2);
            assert(r == seg + tl);
            match b.linear_accel_ms2 {
                Some(t) => {
                assert(seg == l_lin() + v3_rep(t));
                assert(seg[0] == 44 && seg[1] == 34 && seg[2] == 108);
                    assert(r[0] == 44 && r[1] == 34 && r[2] == 108);
                },
                None => {
                    assert(seg =~= Seq::<u8>::empty());
                    assert(r =~= tl);
                },
            }
        } else if n == 5 {
            let seg = v3_field_rep(l_gyro(), b.gyro_rads);
            assert(r == seg + tl);
            match b.gyro_rads {
                Some(t) => {
                assert(seg == l_gyro() + v3_rep(t));
                assert(seg[0] == 44 && seg[1] == 34 && seg[2] == 103);
                    assert(r[0] == 44 && r[1] == 34 && r[2] == 103);
                },
                None => {
                    assert(seg =~= Seq::<u8>::empty());
                    assert(r =~= tl);
                },
            }
        } else if n == 6 {
            let seg = v3_field_rep(l_mag(), b.mag_uT);
            assert(r == seg + tl);
            match b.mag_uT {
                Some(t) => {
                assert(seg == l_mag() + v3_rep(t));
                assert(seg[0] == 44 && seg[1] == 34 && seg[2] == 109);
                    assert(r[0] == 44 && r[1] == 34 && r[2] == 109);
                },
                None => {
                    assert(seg =~= Seq::<u8>::empty());
                    assert(r =~= tl);
                },
            }
        } else if n == 7 {
            let seg = calib_field_rep(b.calib);
            assert(r == seg + tl);
            match b.calib {
                Some(t) => {
                assert(seg[0] == 44 && seg[1] == 34 && seg[2] == 99);
                    assert(r[0] == 44 && r[1] == 34 && r[2] == 99);
                },
                None => {
                    assert(seg =~= Seq::<u8>::empty());
                    assert(r =~= tl);
                },
            }
        }
    }
}

/// How the serialized payload tail from stage `n` on begins.
proof fn lemma_payload_tail_first(m: PayloadModel, n: int)
    requires
        0 <= n <= 3,
    ensures
        ({
            let r = payload_tail_rep(m, n);
            &&& r.len() >= 1
            &&& (r[0] == 125 || (r.len() >= 3 && r[0] == 44 && r[1] == 34))
            &&& (r[0] == 44 ==> ((n <= 0 && m.wifi is Some && r[2] == 119) || (n <= 1
                && m.bno055 is Some && r[2] == 98) || (n <= 2 && m.ultrasonic_cm is Some && r[2]
                == 117)))
        }),
    decreases 3 - n,
{
    if n >= 3 {
        let r = payload_tail_rep(m, n);
        assert(r[0] == 125);
    } else {
        lemma_payload_tail_first(m, n + 1);
        let r = payload_tail_rep(m, n);
        let tl = payload_tail_rep(m, n + 1);
        if n <= 0 {
            let seg = wifi_field_rep(m.wifi);
            assert(r == seg + tl);
            match m.wifi {
                Some(w) => {
                    assert(seg == l_wifi() + int_rep(w.rssi) + seq![125u8]);
                    assert(seg[0] == 44 && seg[1] == 34 && seg[2] == 119);
                    assert(r[0] == 44 && r[1] == 34 && r[2] == 119);
                },
                None => {
                    assert(seg =~= Seq::<u8>::empty());
                    assert(r =~= tl);
                },
            }
        } else if n == 1 {
            let seg = bno_field_rep(m.bno055);
            assert(r == seg + tl);
            match m.bno055 {
                Some(bb) => {
                    assert(seg == l_bno() + bno_rep(bb));
                    assert(seg[0] == 44 && seg[1] == 34 && seg[2] == 98);
                    assert(r[0] == 44 && r[1] == 34 && r[2] == 98);
                },
                None => {
                    assert(seg =~= Seq::<u8>::empty());
                    assert(r =~= tl);
                },
            }
        } else {
            let seg = num_field_rep(l_ultra(), m.ultrasonic_cm);
            assert(r == seg + tl);
            match m.ultrasonic_cm {
                Some(t) => {
                    assert(seg == l_ultra() + t);
                    assert(seg[0] == 44 && seg[1] == 34 && seg[2] == 117);
                    assert(r[0] == 44 && r[1] == 34 && r[2] == 117);
                },
                None => {
                    assert(seg =~= Seq::<u8>::empty());
                    assert(r =~= tl);
                },
            }
        }
    }
}

/// A serialized 3-axis reading sitting at `i` parses back to itself.
proof fn lemma_v3_at(s: Seq<u8>, i: int, v: Vector3Model)
    requires
        vector3_wf(v),
        0 <= i,
        i + v3_rep(v).len() <= s.len(),
        s.subrange(i, i + v3_rep(v).len() as int) == v3_rep(v),
    ensures
        parse_v3_s(s, i) == Some((v, i + v3_rep(v).len() as int)),
{
    let r = v3_rep(v);
    assert forall|k: int| 0 <= k < r.len() implies s[i + k] == r[k] by {
        assert(s.subrange(i, i + r.len() as int)[k] == s[i + k]);
    }
    let px: int = i + 5;
    let py: int = px + v.x.len() + 5;
    let pz: int = py + v.y.len() + 5;
    let pe: int = pz + v.z.len();
    assert(s.subrange(i, i + 5) =~= l_v3_open()) by {
        assert forall|k: int| 0 <= k < 5 implies s.subrange(i, i + 5)[k] == l_v3_open()[k] by {
            assert(s[i + k] == r[k]);
        }
    }
    assert(s.subrange(px, px + v.x.len() as int) =~= v.x) by {
        assert forall|k: int| 0 <= k < v.x.len() implies s.subrange(px, px + v.x.len() as int)[k]
            == v.x[k] by {
            assert(s[i + (5 + k)] == r[5 + k]);
        }
    }
    assert(s[i + (5 + v.x.len())] == r[(5 + v.x.len()) as int]);
    assert(s[px + v.x.len()] == 44);
    lex::lemma_num_end_at(s, px, v.x);
    assert(s.subrange(px + v.x.len(), py as int) =~= l_y()) by {
        assert forall|k: int| 0 <= k < 5 implies s.subrange(px + v.x.len(), py as int)[k] == l_y()[
            k] by {
            assert(s[i + (5 + v.x.len() + k)] == r[5 + v.x.len() + k]);
        }
    }
    assert(s.subrange(py, py + v.y.len() as int) =~= v.y) by {
        assert forall|k: int| 0 <= k < v.y.len() implies s.subrange(py, py + v.y.len() as int)[k]
            == v.y[k] by {
            assert(s[i + (10 + v.x.len() + k)] == r[10 + v.x.len() + k]);
        }
    }
    assert(s[i + (10 + v.x.len() + v.y.len())] == r[(10 + v.x.len() + v.y.len()) as int]);
    assert(s[py + v.y.len()] == 44);
    lex::lemma_num_end_at(s, py, v.y);
    assert(s.subrange(py + v.y.len(), pz as int) =~= l_z()) by {
        assert forall|k: int| 0 <= k < 5 implies s.subrange(py + v.y.len(), pz as int)[k] == l_z()[
            k] by {
            assert(s[i + (10 + v.x.len() + v.y.len() + k)] == r[10 + v.x.len() + v.y.len() + k]);
        }
    }
    assert(s.subrange(pz, pz + v.z.len() as int) =~= v.z) by {
        assert forall|k: int| 0 <= k < v.z.len() implies s.subrange(pz, pz + v.z.len() as int)[k]
            == v.z[k] by {
            assert(s[i + (15 + v.x.len() + v.y.len() + k)] == r[15 + v.x.len() + v.y.len() + k]);
        }
    }
    assert(s[i + (15 + v.x.len() + v.y.len() + v.z.len())] == r[(15 + v.x.len() + v.y.len()
        + v.z.len()) as int]);
    assert(s[pe] == 125);
    lex::lemma_num_end_at(s, pz, v.z);
    assert(eat_byte_s(s, pe, 125u8) == Some(pe + 1));
    assert(pe + 1 == i + r.len());
}

/// A serialized calibration member sitting at `i` parses back to itself.
#[verifier::rlimit(100)]
#[verifier::spinoff_prover]
proof fn lemma_calib_at(s: Seq<u8>, i: int, c: CalibModel)
    requires
        crate::models::calib_wf(c),
        0 <= i,
        i + calib_field_rep(Some(c)).len() <= s.len(),
        s.subrange(i, i + calib_field_rep(Some(c)).len() as int) == calib_field_rep(Some(c)),
    ensures
        parse_calib_field_s(s, i) == Some((Some(c), i + calib_field_rep(Some(c)).len() as int)),
{
    let r = calib_field_rep(Some(c));
    assert forall|k: int| 0 <= k < r.len() implies s[i + k] == r[k] by {
        assert(s.subrange(i, i + r.len() as int)[k] == s[i + k]);
    }
    let p1: int = i + 16;
    let q1: int = p1 + int_rep(c.sys).len();
    let p2: int = q1 + 8;
    let q2: int = p2 + int_rep(c.gyro).len();
    let p3: int = q2 + 9;
    let q3: int = p3 + int_rep(c.accel).len();
    let p4: int = q3 + 7;
    let q4: int = p4 + int_rep(c.mag).len();
    assert(s.subrange(i, i + 16) =~= l_calib()) by {
        assert forall|k: int| 0 <= k < 16 implies s.subrange(i, i + 16)[k] == l_calib()[k] by {
            assert(s[i + k] == r[k]);
        }
    }
    assert(s.subrange(p1, q1) =~= int_rep(c.sys)) by {
        assert forall|k: int| 0 <= k < int_rep(c.sys).len() implies s.subrange(p1, q1)[k]
            == int_rep(c.sys)[k] by {
            assert(s[i + (p1 - i + k)] == r[p1 - i + k]);
        }
    }
    assert(s[i + (q1 - i)] == r[q1 - i]);
    assert(s[q1] == 44);
    lex::lemma_parse_int_at(s, p1, c.sys, i32::MIN as int, i32::MAX as int);
    assert(s.subrange(q1, p2) =~= l_cgyro()) by {
        assert forall|k: int| 0 <= k < 8 implies s.subrange(q1, p2)[k] == l_cgyro()[k] by {
            assert(s[i + (q1 - i + k)] == r[q1 - i + k]);
        }
    }
    assert(s.subrange(p2, q2) =~= int_rep(c.gyro)) by {
        assert forall|k: int| 0 <= k < int_rep(c.gyro).len() implies s.subrange(p2, q2)[k]
            == int_rep(c.gyro)[k] by {
            assert(s[i + (p2 - i + k)] == r[p2 - i + k]);
        }
    }
    assert(s[i + (q2 - i)] == r[q2 - i]);
    assert(s[q2] == 44);
    lex::lemma_parse_int_at(s, p2, c.gyro, i32::MIN as int, i32::MAX as int);
    assert(s.subrange(q2, p3) =~= l_caccel()) by {
        assert forall|k: int| 0 <= k < 9 implies s.subrange(q2, p3)[k] == l_caccel()[k] by {
            assert(s[i + (q2 - i + k)] == r[q2 - i + k]);
        }
    }
    assert(s.subrange(p3, q3) =~= int_rep(c.accel)) by {
        assert forall|k: int| 0 <= k < int_rep(c.accel).len() implies s.subrange(p3, q3)[k]
            == int_rep(c.accel)[k] by {
            assert(s[i + (p3 - i + k)] == r[p3 - i + k]);
        }
    }
    assert(s[i + (q3 - i)] == r[q3 - i]);
    assert(s[q3] == 44);
    lex::lemma_parse_int_at(s, p3, c.accel, i32::MIN as int, i32::MAX as int);
    assert(s.subrange(q3, p4) =~= l_cmag()) by {
        assert forall|k: int| 0 <= k < 7 implies s.subrange(q3, p4)[k] == l_cmag()[k] by {
            assert(s[i + (q3 - i + k)] == r[q3 - i + k]);
        }
    }
    assert(s.subrange(p4, q4) =~= int_rep(c.mag)) by {
        assert forall|k: int| 0 <= k < int_rep(c.mag).len() implies s.subrange(p4, q4)[k]
            == int_rep(c.mag)[k] by {
            assert(s[i + (p4 - i + k)] == r[p4 - i + k]);
        }
    }
    assert(s[i + (q4 - i)] == r[q4 - i]);
    assert(s[q4] == 125);
    lex::lemma_parse_int_at(s, p4, c.mag, i32::MIN as int, i32::MAX as int);
    assert(eat_byte_s(s, q4, 125u8) == Some(q4 + 1));
    assert(q4 + 1 == i + r.len());
}

/// A serialized wifi member sitting at `i` parses back to itself.
proof fn lemma_wifi_at(s: Seq<u8>, i: int, w: WifiModel)
    requires
        crate::models::wifi_wf(w),
        0 <= i,
        i + wifi_field_rep(Some(w)).len() <= s.len(),
        s.subrange(i, i + wifi_field_rep(Some(w)).len() as int) == wifi_field_rep(Some(w)),
    ensures
        parse_wifi_field_s(s, i) == Some((Some(w), i + wifi_field_rep(Some(w)).len() as int)),
{
    let r = wifi_field_rep(Some(w));
    assert forall|k: int| 0 <= k < r.len() implies s[i + k] == r[k] by {
        assert(s.subrange(i, i + r.len() as int)[k] == s[i + k]);
    }
    let p1: int = i + 16;
    let q1: int = p1 + int_rep(w.rssi).len();
    assert(s.subrange(i, i + 16) =~= l_wifi()) by {
        assert forall|k: int| 0 <= k < 16 implies s.subrange(i, i + 16)[k] == l_wifi()[k] by {
            assert(s[i + k] == r[k]);
        }
    }
    assert(s.subrange(p1, q1) =~= int_rep(w.rssi)) by {
        assert forall|k: int| 0 <= k < int_rep(w.rssi).len() implies s.subrange(p1, q1)[k]
            == int_rep(w.rssi)[k] by {
            assert(s[i + (16 + k)] == r[16 + k]);
        }
    }
    assert(s[i + (q1 - i)] == r[q1 - i]);
    assert(s[q1] == 125);
    lex::lemma_parse_int_at(s, p1, w.rssi, i32::MIN as int, i32::MAX as int);
    assert(eat_byte_s(s, q1, 125u8) == Some(q1 + 1));
    assert(q1 + 1 == i + r.len());
}

/// One optional number member at position `q`: the serialized segment for
/// `o` (empty when absent) followed by a tail that cannot be mistaken for
/// the member's own key. Parsing consumes exactly the segment and leaves
/// the tail.
proof fn lemma_stage_num(s: Seq<u8>, q: int, key: Seq<u8>, o: Option<Seq<u8>>, tl: Seq<u8>)
    requires
        0 <= q,
        key.len() >= 3,
        key[0] == 44,
        opt_num_wf(o),
        tl.len() >= 1,
        tl[0] == 125 || (tl.len() >= 3 && tl[0] == 44 && tl[2] != key[2]),
        q + num_field_rep(key, o).len() + tl.len() <= s.len(),
        s.subrange(q, q + (num_field_rep(key, o) + tl).len() as int) == num_field_rep(key, o)
            + tl,
    ensures
        parse_num_field_s(s, q, key) == Some((o, q + num_field_rep(key, o).len() as int)),
        s.subrange(
            q + num_field_rep(key, o).len() as int,
            q + num_field_rep(key, o).len() + tl.len() as int,
        ) == tl,
{
    let seg = num_field_rep(key, o);
    let w = seg + tl;
    assert forall|k: int| 0 <= k < w.len() implies s[q + k] == w[k] by {
        assert(s.subrange(q, q + w.len() as int)[k] == s[q + k]);
    }
    assert(s.subrange(q + seg.len() as int, q + seg.len() + tl.len() as int) =~= tl) by {
        assert forall|k: int|
            0 <= k < tl.len() implies s.subrange(
            q + seg.len() as int,
            q + seg.len() + tl.len() as int,
        )[k] == tl[k] by {
            assert(s[q + (seg.len() + k)] == w[(seg.len() + k) as int]);
        }
    }
    match o {
        Some(t) => {
            assert(seg == key + t);
            assert(s.subrange(q, q + key.len() as int) =~= key) by {
                assert forall|k: int|
                    0 <= k < key.len() implies s.subrange(q, q + key.len() as int)[k] == key[k] by {
                    assert(s[q + k] == w[k]);
                }
            }
            assert(s.subrange(q + key.len() as int, q + seg.len() as int) =~= t) by {
                assert forall|k: int|
                    0 <= k < t.len() implies s.subrange(
                    q + key.len() as int,
                    q + seg.len() as int,
                )[k] == t[k] by {
                    assert(s[q + (key.len() + k)] == w[(key.len() + k) as int]);
                }
            }
            assert(s[q + seg.len()] == w[seg.len() as int]);
            assert(s[q + seg.len()] == tl[0]);
            lex::lemma_num_end_at(s, q + key.len() as int, t);
        },
        None => {
            assert(s[q + 0] == w[0]);
            if tl[0] == 125 {
                lemma_lit_not(s, q, key, 0);
            } else {
                assert(s[q + 2] == w[2]);
                lemma_lit_not(s, q, key, 2);
            }
        },
    }
}

/// One optional 3-axis member at position `q`, as `lemma_stage_num`.
proof fn lemma_stage_v3(s: Seq<u8>, q: int, key: Seq<u8>, o: Option<Vector3Model>, tl: Seq<u8>)
    requires
        0 <= q,
        key.len() >= 3,
        key[0] == 44,
        opt_vector3_wf(o),
        tl.len() >= 1,
        tl[0] == 125 || (tl.len() >= 3 && tl[0] == 44 && tl[2] != key[2]),
        q + v3_field_rep(key, o).len() + tl.len() <= s.len(),
        s.subrange(q, q + (v3_field_rep(key, o) + tl).len() as int) == v3_field_rep(key, o) + tl,
    ensures
        parse_v3_field_s(s, q, key) == Some((o, q + v3_field_rep(key, o).len() as int)),
        s.subrange(
            q + v3_field_rep(key, o).len() as int,
            q + v3_field_rep(key, o).len() + tl.len() as int,
        ) == tl,
{
    let seg = v3_field_rep(key, o);
    let w = seg + tl;
    assert forall|k: int| 0 <= k < w.len() implies s[q + k] == w[k] by {
        assert(s.subrange(q, q + w.len() as int)[k] == s[q + k]);
    }
    assert(s.subrange(q + seg.len() as int, q + seg.len() + tl.len() as int) =~= tl) by {
        assert forall|k: int|
            0 <= k < tl.len() implies s.subrange(
            q + seg.len() as int,
            q + seg.len() + tl.len() as int,
        )[k] == tl[k] by {
            assert(s[q + (seg.len() + k)] == w[(seg.len() + k) as int]);
        }
    }
    match o {
        Some(v) => {
            assert(seg == key + v3_rep(v));
            assert(s.subrange(q, q + key.len() as int) =~= key) by {
                assert forall|k: int|
                    0 <= k < key.len() implies s.subrange(q, q + key.len() as int)[k] == key[k] by {
                    assert(s[q + k] == w[k]);
                }
            }
            assert(s.subrange(q + key.len() as int, q + seg.len() as int) =~= v3_rep(v)) by {
                assert forall|k: int|
                    0 <= k < v3_rep(v).len() implies s.subrange(
                    q + key.len() as int,
                    q + seg.len() as int,
                )[k] == v3_rep(v)[k] by {
                    assert(s[q + (key.len() + k)] == w[(key.len() + k) as int]);
                }
            }
            lemma_v3_at(s, q + key.len() as int, v);
        },
        None => {
            assert(s[q + 0] == w[0]);
            if tl[0] == 125 {
                lemma_lit_not(s, q, key, 0);
            } else {
                assert(s[q + 2] == w[2]);
                lemma_lit_not(s, q, key, 2);
            }
        },
    }
}

/// The optional calibration member at position `q`, followed by the
/// closing brace of the orientation block.
#[verifier::rlimit(100)]
#[verifier::spinoff_prover]
proof fn lemma_stage_calib(s: Seq<u8>, q: int, o: Option<CalibModel>, tl: Seq<u8>)
    requires
        0 <= q,
        match o {
            Some(c) => crate::models::calib_wf(c),
            None => true,
        },
        tl.len() >= 1,
        tl[0] == 125,
        q + calib_field_rep(o).len() + tl.len() <= s.len(),
        s.subrange(q, q + (calib_field_rep(o) + tl).len() as int) == calib_field_rep(o) + tl,
    ensures
        parse_calib_field_s(s, q, ) == Some((o, q + calib_field_rep(o).len() as int)),
        s.subrange(
            q + calib_field_rep(o).len() as int,
            q + calib_field_rep(o).len() + tl.len() as int,
        ) == tl,
{
    let seg = calib_field_rep(o);
    let w = seg + tl;
    assert forall|k: int| 0 <= k < w.len() implies s[q + k] == w[k] by {
        assert(s.subrange(q, q + w.len() as int)[k] == s[q + k]);
    }
    assert(s.subrange(q + seg.len() as int, q + seg.len() + tl.len() as int) =~= tl) by {
        assert forall|k: int|
            0 <= k < tl.len() implies s.subrange(
            q + seg.len() as int,
            q + seg.len() + tl.len() as int,
        )[k] == tl[k] by {
            assert(s[q + (seg.len() + k)] == w[(seg.len() + k) as int]);
        }
    }
    match o {
        Some(c) => {
            assert(s.subrange(q, q + seg.len() as int) =~= seg) by {
                assert forall|k: int|
                    0 <= k < seg.len() implies s.subrange(q, q + seg.len() as int)[k] == seg[k] by {
                    assert(s[q + k] == w[k]);
                }
            }
            lemma_calib_at(s, q, c);
        },
        None => {
            assert(s[q + 0] == w[0]);
            lemma_lit_not(s, q, l_calib(), 0);
        },
    }
}

/// Stages heading through temperature of the orientation tail at `q0`.
#[verifier::rlimit(100)]
#[verifier::spinoff_prover]
proof fn lemma_bno_walk_a(s: Seq<u8>, q0: int, b: BnoModel)
    requires
        bno_wf(b),
        0 <= q0,
        q0 + bno_tail_rep(b, 0).len() <= s.len(),
        s.subrange(q0, q0 + bno_tail_rep(b, 0).len() as int) == bno_tail_rep(b, 0),
    ensures
        ({
            let q1 = q0 + num_field_rep(l_heading(), b.heading_deg).len() as int;
            let q2 = q1 + num_field_rep(l_roll(), b.roll_deg).len() as int;
            let q3 = q2 + num_field_rep(l_pitch(), b.pitch_deg).len() as int;
            let q4 = q3 + num_field_rep(l_temp(), b.temp_c).len() as int;
            &&& parse_num_field_s(s, q0, l_heading()) == Some((b.heading_deg, q1))
            &&& parse_num_field_s(s, q1, l_roll()) == Some((b.roll_deg, q2))
            &&& parse_num_field_s(s, q2, l_pitch()) == Some((b.pitch_deg, q3))
            &&& parse_num_field_s(s, q3, l_temp()) == Some((b.temp_c, q4))
            &&& q4 + bno_tail_rep(b, 4).len() <= s.len()
            &&& s.subrange(q4, q4 + bno_tail_rep(b, 4).len() as int) == bno_tail_rep(b, 4)
        }),
{
    let t0 = bno_tail_rep(b, 0);
    let t1 = bno_tail_rep(b, 1);
    let seg0 = num_field_rep(l_heading(), b.heading_deg);
    assert(t0 == seg0 + t1);
    lemma_bno_tail_first(b, 1);
    lemma_stage_num(s, q0, l_heading(), b.heading_deg, t1);
    let q1: int = q0 + seg0.len();
    let t2 = bno_tail_rep(b, 2);
    let seg1 = num_field_rep(l_roll(), b.roll_deg);
    assert(t1 == seg1 + t2);
    lemma_bno_tail_first(b, 2);
    lemma_stage_num(s, q1, l_roll(), b.roll_deg, t2);
    let q2: int = q1 + seg1.len();
    let t3 = bno_tail_rep(b, 3);
    let seg2 = num_field_rep(l_pitch(), b.pitch_deg);
    assert(t2 == seg2 + t3);
    lemma_bno_tail_first(b, 3);
    lemma_stage_num(s, q2, l_pitch(), b.pitch_deg, t3);
    let q3: int = q2 + seg2.len();
    let t4 = bno_tail_rep(b, 4);
    let seg3 = num_field_rep(l_temp(), b.temp_c);
    assert(t3 == seg3 + t4);
    lemma_bno_tail_first(b, 4);
    lemma_stage_num(s, q3, l_temp(), b.temp_c, t4);
}

/// Stages linear acceleration through calibration, and the closing brace.
#[verifier::rlimit(100)]
#[verifier::spinoff_prover]
proof fn lemma_bno_walk_b(s: Seq<u8>, q4: int, b: BnoModel)
    requires
        bno_wf(b),
        0 <= q4,
        q4 + bno_tail_rep(b, 4).len() <= s.len(),
        s.subrange(q4, q4 + bno_tail_rep(b, 4).len() as int) == bno_tail_rep(b, 4),
    ensures
        ({
            let q5 = q4 + v3_field_rep(l_lin(), b.linear_accel_ms2).len() as int;
            let q6 = q5 + v3_field_rep(l_gyro(), b.gyro_rads).len() as int;
            let q7 = q6 + v3_field_rep(l_mag(), b.mag_uT).len() as int;
            let q8 = q7 + calib_field_rep(b.calib).len() as int;
            &&& parse_v3_field_s(s, q4, l_lin()) == Some((b.linear_accel_ms2, q5))
            &&& parse_v3_field_s(s, q5, l_gyro()) == Some((b.gyro_rads, q6))
            &&& parse_v3_field_s(s, q6, l_mag()) == Some((b.mag_uT, q7))
            &&& parse_calib_field_s(s, q7) == Some((b.calib, q8))
            &&& eat_byte_s(s, q8, 125u8) == Some(q8 + 1)
            &&& q8 + 1 == q4 + bno_tail_rep(b, 4).len()
        }),
{
    let t4 = bno_tail_rep(b, 4);
    let t5 = bno_tail_rep(b, 5);
    let seg4 = v3_field_rep(l_lin(), b.linear_accel_ms2);
    assert(t4 == seg4 + t5);
    lemma_bno_tail_first(b, 5);
    lemma_stage_v3(s, q4, l_lin(), b.linear_accel_ms2, t5);
    let q5: int = q4 + seg4.len();
    let t6 = bno_tail_rep(b, 6);
    let seg5 = v3_field_rep(l_gyro(), b.gyro_rads);
    assert(t5 == seg5 + t6);
    lemma_bno_tail_first(b, 6);
    lemma_stage_v3(s, q5, l_gyro(), b.gyro_rads, t6);
    let q6: int = q5 + seg5.len();
    let t7 = bno_tail_rep(b, 7);
    let seg6 = v3_field_rep(l_mag(), b.mag_uT);
    assert(t6 == seg6 + t7);
    lemma_bno_tail_first(b, 7);
    lemma_stage_v3(s, q6, l_mag(), b.mag_uT, t7);
    let q7: int = q6 + seg6.len();
    let t8 = bno_tail_rep(b, 8);
    let seg7 = calib_field_rep(b.calib);
    assert(t7 == seg7 + t8);
    lemma_stage_calib(s, q7, b.calib, t8);
    let q8: int = q7 + seg7.len();
    assert(s.subrange(q8, q8 + t8.len() as int)[0] == s[q8]);
    assert(s[q8] == 125);
}

/// The opening literal, health flag and position of the member tail of a
/// serialized orientation block sitting at `i`.
#[verifier::rlimit(100)]
#[verifier::spinoff_prover]
proof fn lemma_bno_head(s: Seq<u8>, i: int, b: BnoModel)
    requires
        bno_wf(b),
        0 <= i,
        i + bno_rep(b).len() <= s.len(),
        s.subrange(i, i + bno_rep(b).len() as int) == bno_rep(b),
    ensures
        ({
            let q0 = i + 6 + bool_rep(b.ok).len() as int;
            &&& eat_lit_s(s, i, l_bno_open()) == Some(i + 6)
            &&& parse_bool_s(s, i + 6) == Some((b.ok, q0))
            &&& q0 + bno_tail_rep(b, 0).len() == i + bno_rep(b).len()
            &&& s.subrange(q0, q0 + bno_tail_rep(b, 0).len() as int) == bno_tail_rep(b, 0)
        }),
{
    let r = bno_rep(b);
    assert forall|k: int| 0 <= k < r.len() implies s[i + k] == r[k] by {
        assert(s.subrange(i, i + r.len() as int)[k] == s[i + k]);
    }
    let bl = bool_rep(b.ok);
    assert(s.subrange(i, i + 6) =~= l_bno_open()) by {
        assert forall|k: int| 0 <= k < 6 implies s.subrange(i, i + 6)[k] == l_bno_open()[k] by {
            assert(s[i + k] == r[k]);
        }
    }
    assert(s.subrange(i + 6, i + 6 + bl.len() as int) =~= bl) by {
        assert forall|k: int|
            0 <= k < bl.len() implies s.subrange(i + 6, i + 6 + bl.len() as int)[k] == bl[k] by {
            assert(s[i + (6 + k)] == r[(6 + k) as int]);
        }
    }
    if b.ok {
        assert(lit_at(s, i + 6, l_true()));
    } else {
        assert(s[i + 6] == r[6]);
        assert(r[6] == 102);
        lemma_lit_not(s, i + 6, l_true(), 0);
        assert(lit_at(s, i + 6, l_false()));
    }
    assert(parse_bool_s(s, i + 6) == Some((b.ok, i + 6 + bl.len() as int)));
    let q0: int = i + 6 + bl.len();
    let t0 = bno_tail_rep(b, 0);
    assert(r == (l_bno_open() + bl) + t0);
    assert(s.subrange(q0, q0 + t0.len() as int) =~= t0) by {
        assert forall|k: int|
            0 <= k < t0.len() implies s.subrange(q0, q0 + t0.len() as int)[k] == t0[k] by {
            assert(s[i + (6 + bl.len() + k)] == r[(6 + bl.len() + k) as int]);
        }
    }
    assert(bno_tail_rep(b, 0) == num_field_rep(l_heading(), b.heading_deg) + bno_tail_rep(b, 1));
    assert(bno_tail_rep(b, 1) == num_field_rep(l_roll(), b.roll_deg) + bno_tail_rep(b, 2));
    assert(bno_tail_rep(b, 2) == num_field_rep(l_pitch(), b.pitch_deg) + bno_tail_rep(b, 3));
    assert(bno_tail_rep(b, 3) == num_field_rep(l_temp(), b.temp_c) + bno_tail_rep(b, 4));
}

/// A serialized orientation block sitting at `i` parses back to itself.
#[verifier::rlimit(100)]
#[verifier::spinoff_prover]
proof fn lemma_bno_at(s: Seq<u8>, i: int, b: BnoModel)
    requires
        bno_wf(b),
        0 <= i,
        i + bno_rep(b).len() <= s.len(),
        s.subrange(i, i + bno_rep(b).len() as int) == bno_rep(b),
    ensures
        parse_bno_s(s, i) == Some((b, i + bno_rep(b).len() as int)),
{
    lemma_bno_head(s, i, b);
    let q0: int = i + 6 + bool_rep(b.ok).len();
    lemma_bno_walk_a(s, q0, b);
    let q4: int = q0 + num_field_rep(l_heading(), b.heading_deg).len()
        + num_field_rep(l_roll(), b.roll_deg).len() + num_field_rep(
        l_pitch(),
        b.pitch_deg,
    ).len() + num_field_rep(l_temp(), b.temp_c).len();
    lemma_bno_walk_b(s, q4, b);
    assert(bno_tail_rep(b, 0) == num_field_rep(l_heading(), b.heading_deg) + bno_tail_rep(b, 1));
    assert(bno_tail_rep(b, 1) == num_field_rep(l_roll(), b.roll_deg) + bno_tail_rep(b, 2));
    assert(bno_tail_rep(b, 2) == num_field_rep(l_pitch(), b.pitch_deg) + bno_tail_rep(b, 3));
    assert(bno_tail_rep(b, 3) == num_field_rep(l_temp(), b.temp_c) + bno_tail_rep(b, 4));
    assert(q4 + bno_tail_rep(b, 4).len() == i + bno_rep(b).len());
    assert(parse_bno_s(s, i) == Some((b, i + bno_rep(b).len() as int)));
}

/// The optional wifi member at position `q`.
#[verifier::rlimit(100)]
#[verifier::spinoff_prover]
proof fn lemma_stage_wifi(s: Seq<u8>, q: int, o: Option<WifiModel>, tl: Seq<u8>)
    requires
        0 <= q,
        match o {
            Some(w) => crate::models::wifi_wf(w),
            None => true,
        },
        tl.len() >= 1,
        tl[0] == 125 || (tl.len() >= 3 && tl[0] == 44 && tl[2] != 119),
        q + wifi_field_rep(o).len() + tl.len() <= s.len(),
        s.subrange(q, q + (wifi_field_rep(o) + tl).len() as int) == wifi_field_rep(o) + tl,
    ensures
        parse_wifi_field_s(s, q) == Some((o, q + wifi_field_rep(o).len() as int)),
        s.subrange(
            q + wifi_field_rep(o).len() as int,
            q + wifi_field_rep(o).len() + tl.len() as int,
        ) == tl,
{
    let seg = wifi_field_rep(o);
    let w = seg + tl;
    assert forall|k: int| 0 <= k < w.len() implies s[q + k] == w[k] by {
        assert(s.subrange(q, q + w.len() as int)[k] == s[q + k]);
    }
    assert(s.subrange(q + seg.len() as int, q + seg.len() + tl.len() as int) =~= tl) by {
        assert forall|k: int|
            0 <= k < tl.len() implies s.subrange(
            q + seg.len() as int,
            q + seg.len() + tl.len() as int,
        )[k] == tl[k] by {
            assert(s[q + (seg.len() + k)] == w[(seg.len() + k) as int]);
        }
    }
    match o {
        Some(wm) => {
            assert(s.subrange(q, q + seg.len() as int) =~= seg) by {
                assert forall|k: int|
                    0 <= k < seg.len() implies s.subrange(q, q + seg.len() as int)[k] == seg[k] by {
                    assert(s[q + k] == w[k]);
                }
            }
            lemma_wifi_at(s, q, wm);
        },
        None => {
            assert(s[q + 0] == w[0]);
            if tl[0] == 125 {
                lemma_lit_not(s, q, l_wifi(), 0);
            } else {
                assert(s[q + 2] == w[2]);
                lemma_lit_not(s, q, l_wifi(), 2);
            }
        },
    }
}

/// The optional orientation member at position `q`.
#[verifier::rlimit(100)]
#[verifier::spinoff_prover]
proof fn lemma_stage_bno(s: Seq<u8>, q: int, o: Option<BnoModel>, tl: Seq<u8>)
    requires
        0 <= q,
        match o {
            Some(b) => bno_wf(b),
            None => true,
        },
        tl.len() >= 1,
        tl[0] == 125 || (tl.len() >= 3 && tl[0] == 44 && tl[2] != 98),
        q + bno_field_rep(o).len() + tl.len() <= s.len(),
        s.subrange(q, q + (bno_field_rep(o) + tl).len() as int) == bno_field_rep(o) + tl,
    ensures
        parse_bno_field_s(s, q) == Some((o, q + bno_field_rep(o).len() as int)),
        s.subrange(
            q + bno_field_rep(o).len() as int,
            q + bno_field_rep(o).len() + tl.len() as int,
        ) == tl,
{
    let seg = bno_field_rep(o);
    let w = seg + tl;
    assert forall|k: int| 0 <= k < w.len() implies s[q + k] == w[k] by {
        assert(s.subrange(q, q + w.len() as int)[k] == s[q + k]);
    }
    assert(s.subrange(q + seg.len() as int, q + seg.len() + tl.len() as int) =~= tl) by {
        assert forall|k: int|
            0 <= k < tl.len() implies s.subrange(
            q + seg.len() as int,
            q + seg.len() + tl.len() as int,
        )[k] == tl[k] by {
            assert(s[q + (seg.len() + k)] == w[(seg.len() + k) as int]);
        }
    }
    match o {
        Some(b) => {
            assert(seg == l_bno() + bno_rep(b));
            assert(s.subrange(q, q + 10) =~= l_bno()) by {
                assert forall|k: int| 0 <= k < 10 implies s.subrange(q, q + 10)[k] == l_bno()[
                    k] by {
                    assert(s[q + k] == w[k]);
                }
            }
            assert(s.subrange(q + 10, q + seg.len() as int) =~= bno_rep(b)) by {
                assert forall|k: int|
                    0 <= k < bno_rep(b).len() implies s.subrange(q + 10, q + seg.len() as int)[k]
                    == bno_rep(b)[k] by {
                    assert(s[q + (10 + k)] == w[(10 + k) as int]);
                }
            }
            lemma_bno_at(s, q + 10, b);
        },
        None => {
            assert(s[q + 0] == w[0]);
            if tl[0] == 125 {
                lemma_lit_not(s, q, l_bno(), 0);
            } else {
                assert(s[q + 2] == w[2]);
                lemma_lit_not(s, q, l_bno(), 2);
            }
        },
    }
}

/// The fixed head of a serialized record: opening literal, timestamp,
/// device key and device string, and the position of the optional tail.
#[verifier::rlimit(100)]
#[verifier::spinoff_prover]
proof fn lemma_payload_head(m: PayloadModel)
    requires
        crate::models::payload_wf(m),
    ensures
        ({
            let s = payload_rep(m);
            let a1 = 6 + int_rep(m.ts).len() as int;
            let a2 = a1 + 10;
            let q0 = a2 + m.device.len() + 2 as int;
            &&& eat_lit_s(s, 0, l_open_ts()) == Some(6int)
            &&& parse_int_s(s, 6, i64::MIN as int, i64::MAX as int) == Some((m.ts, a1))
            &&& eat_lit_s(s, a1, l_device()) == Some(a2)
            &&& str_end(s, a2) == Some((m.device, q0))
            &&& q0 + payload_tail_rep(m, 0).len() == s.len()
            &&& s.subrange(q0, q0 + payload_tail_rep(m, 0).len() as int) == payload_tail_rep(
                m,
                0,
            )
        }),
{
    let s = payload_rep(m);
    let it = int_rep(m.ts);
    let sr = lex::str_rep(m.device);
    let t0 = payload_tail_rep(m, 0);
    let a1: int = 6 + it.len() as int;
    let a2: int = a1 + 10;
    let q0: int = a2 + m.device.len() + 2;
    lemma_payload_tail_first(m, 0);
    assert(s.subrange(0, 6) =~= l_open_ts()) by {
        assert forall|k: int| 0 <= k < 6 implies s.subrange(0, 6)[k] == l_open_ts()[k] by {
            assert(s.subrange(0, 6)[k] == s[0 + k]);
        }
    }
    assert(s.subrange(6, a1) =~= it) by {
        assert forall|k: int| 0 <= k < it.len() implies s.subrange(6, a1)[k] == it[k] by {
            assert(s.subrange(6, a1)[k] == s[6 + k]);
        }
    }
    assert(s[a1] == 44);
    lex::lemma_parse_int_at(s, 6, m.ts, i64::MIN as int, i64::MAX as int);
    assert(s.subrange(a1, a2) =~= l_device()) by {
        assert forall|k: int| 0 <= k < 10 implies s.subrange(a1, a2)[k] == l_device()[k] by {
            assert(s.subrange(a1, a2)[k] == s[a1 + k]);
        }
    }
    assert(s.subrange(a2, q0) =~= sr) by {
        assert forall|k: int| 0 <= k < sr.len() implies s.subrange(a2, q0)[k] == sr[k] by {
            assert(s.subrange(a2, q0)[k] == s[a2 + k]);
        }
    }
    lex::lemma_str_at(s, a2, m.device);
    assert(s.subrange(q0, q0 + t0.len() as int) =~= t0) by {
        assert forall|k: int|
            0 <= k < t0.len() implies s.subrange(q0, q0 + t0.len() as int)[k] == t0[k] by {
            assert(s.subrange(q0, q0 + t0.len() as int)[k] == s[q0 + k]);
        }
    }
}

/// The round trip: decoding the canonical serialization of any well-formed
/// record yields exactly that record — every present field preserved, every
/// absent field still absent, nothing defaulted in.
#[verifier::rlimit(100)]
#[verifier::spinoff_prover]
pub proof fn lemma_decode_encode(m: PayloadModel)
    requires
        crate::models::payload_wf(m),
    ensures
        decode_spec(payload_rep(m)) == Some(m),
{
    reveal(parse_payload_s);
    let s = payload_rep(m);
    lemma_payload_head(m);
    let a1: int = 6 + int_rep(m.ts).len() as int;
    let a2: int = a1 + 10;
    let q0: int = a2 + m.device.len() + 2;
    let t0 = payload_tail_rep(m, 0);
    let t1 = payload_tail_rep(m, 1);
    let t2 = payload_tail_rep(m, 2);
    let t3 = payload_tail_rep(m, 3);
    assert(t0 == wifi_field_rep(m.wifi) + t1);
    assert(t1 == bno_field_rep(m.bno055) + t2);
    assert(t2 == num_field_rep(l_ultra(), m.ultrasonic_cm) + t3);
    lemma_payload_tail_first(m, 1);
    lemma_stage_wifi(s, q0, m.wifi, t1);
    let q1: int = q0 + wifi_field_rep(m.wifi).len();
    lemma_payload_tail_first(m, 2);
    lemma_stage_bno(s, q1, m.bno055, t2);
    let q2: int = q1 + bno_field_rep(m.bno055).len();
    lemma_payload_tail_first(m, 3);
    lemma_stage_num(s, q2, l_ultra(), m.ultrasonic_cm, t3);
    let q3: int = q2 + num_field_rep(l_ultra(), m.ultrasonic_cm).len();
    assert(s.subrange(q3, q3 + 1)[0] == s[q3]);
    assert(s[q3] == 125);
    assert(eat_byte_s(s, q3, 125u8) == Some(q3 + 1));
    assert(q3 + 1 == s.len());
    assert(parse_payload_s(s, 0) == Some((m, s.len() as int)));
    assert(canonical_decode(s) == Some(m));
}

} // verus!
