//! The Persistence Writer's data side: the flat storage row a decoded
//! record maps to (one column per scalar reading, `None` for every absent
//! optional, so nothing absent is ever stored as zero), and the JSON text a
//! stored row is listed as by the history endpoints.

use vstd::prelude::*;
use crate::lex;
use crate::lex::int_rep;
use crate::models::{Bno055, Calib, Number, PayloadModel, SensorPayload, Vector3, opt_view};

verus! {

// ------------------------------------------------------- the stored row

/// The bytes of `{"id":`.
pub open spec fn lj_id() -> Seq<u8> {
    seq![123u8, 34u8, 105u8, 100u8, 34u8, 58u8]
}

fn lj_id_x() -> (v: Vec<u8>)
    ensures
        v@ == lj_id(),
{
    let mut v: Vec<u8> = Vec::new();
    v.push(123u8); v.push(34u8); v.push(105u8); v.push(100u8); v.push(34u8); v.push(58u8);
    proof {
        assert(v@ =~= lj_id());
    }
    v
}

/// The bytes of `,"ts":`.
pub open spec fn lj_ts() -> Seq<u8> {
    seq![44u8, 34u8, 116u8, 115u8, 34u8, 58u8]
}

fn lj_ts_x() -> (v: Vec<u8>)
    ensures
        v@ == lj_ts(),
{
    let mut v: Vec<u8> = Vec::new();
    v.push(44u8); v.push(34u8); v.push(116u8); v.push(115u8); v.push(34u8); v.push(58u8);
    proof {
        assert(v@ =~= lj_ts());
    }
    v
}

/// The bytes of `,"device":`.
pub open spec fn lj_device() -> Seq<u8> {
    seq![44u8, 34u8, 100u8, 101u8, 118u8, 105u8, 99u8, 101u8, 34u8, 58u8]
}

fn lj_device_x() -> (v: Vec<u8>)
    ensures
        v@ == lj_device(),
{
    let mut v: Vec<u8> = Vec::new();
    v.push(44u8); v.push(34u8); v.push(100u8); v.push(101u8); v.push(118u8); v.push(105u8); v.push(99u8); v.push(101u8); v.push(34u8); v.push(58u8);
    proof {
        assert(v@ =~= lj_device());
    }
    v
}

/// The bytes of `,"wifi_rssi":`.
pub open spec fn lj_wifi() -> Seq<u8> {
    seq![44u8, 34u8, 119u8, 105u8, 102u8, 105u8, 95u8, 114u8, 115u8, 115u8, 105u8, 34u8, 58u8]
}

fn lj_wifi_x() -> (v: Vec<u8>)
    ensures
        v@ == lj_wifi(),
{
    let mut v: Vec<u8> = Vec::new();
    v.push(44u8); v.push(34u8); v.push(119u8); v.push(105u8); v.push(102u8); v.push(105u8); v.push(95u8); v.push(114u8); v.push(115u8); v.push(115u8); v.push(105u8); v.push(34u8); v.push(58u8);
    proof {
        assert(v@ =~= lj_wifi());
    }
    v
}

/// The bytes of `,"heading_deg":`.
pub open spec fn lj_heading() -> Seq<u8> {
    seq![44u8, 34u8, 104u8, 101u8, 97u8, 100u8, 105u8, 110u8, 103u8, 95u8, 100u8, 101u8, 103u8, 34u8, 58u8]
}

fn lj_heading_x() -> (v: Vec<u8>)
    ensures
        v@ == lj_heading(),
{
    let mut v: Vec<u8> = Vec::new();
    v.push(44u8); v.push(34u8); v.push(104u8); v.push(101u8); v.push(97u8); v.push(100u8); v.push(105u8); v.push(110u8); v.push(103u8); v.push(95u8); v.push(100u8); v.push(101u8); v.push(103u8); v.push(34u8); v.push(58u8);
    proof {
        assert(v@ =~= lj_heading());
    }
    v
}

/// The bytes of `,"roll_deg":`.
pub open spec fn lj_roll() -> Seq<u8> {
    seq![44u8, 34u8, 114u8, 111u8, 108u8, 108u8, 95u8, 100u8, 101u8, 103u8, 34u8, 58u8]
}

fn lj_roll_x() -> (v: Vec<u8>)
    ensures
        v@ == lj_roll(),
{
    let mut v: Vec<u8> = Vec::new();
    v.push(44u8); v.push(34u8); v.push(114u8); v.push(111u8); v.push(108u8); v.push(108u8); v.push(95u8); v.push(100u8); v.push(101u8); v.push(103u8); v.push(34u8); v.push(58u8);
    proof {
        assert(v@ =~= lj_roll());
    }
    v
}

/// The bytes of `,"pitch_deg":`.
pub open spec fn lj_pitch() -> Seq<u8> {
    seq![44u8, 34u8, 112u8, 105u8, 116u8, 99u8, 104u8, 95u8, 100u8, 101u8, 103u8, 34u8, 58u8]
}

fn lj_pitch_x() -> (v: Vec<u8>)
    ensures
        v@ == lj_pitch(),
{
    let mut v: Vec<u8> = Vec::new();
    v.push(44u8); v.push(34u8); v.push(112u8); v.push(105u8); v.push(116u8); v.push(99u8); v.push(104u8); v.push(95u8); v.push(100u8); v.push(101u8); v.push(103u8); v.push(34u8); v.push(58u8);
    proof {
        assert(v@ =~= lj_pitch());
    }
    v
}

/// The bytes of `,"temp_c":`.
pub open spec fn lj_temp() -> Seq<u8> {
    seq![44u8, 34u8, 116u8, 101u8, 109u8, 112u8, 95u8, 99u8, 34u8, 58u8]
}

fn lj_temp_x() -> (v: Vec<u8>)
    ensures
        v@ == lj_temp(),
{
    let mut v: Vec<u8> = Vec::new();
    v.push(44u8); v.push(34u8); v.push(116u8); v.push(101u8); v.push(109u8); v.push(112u8); v.push(95u8); v.push(99u8); v.push(34u8); v.push(58u8);
    proof {
        assert(v@ =~= lj_temp());
    }
    v
}

/// The bytes of `,"ultrasonic_cm":`.
pub open spec fn lj_ultra() -> Seq<u8> {
    seq![44u8, 34u8, 117u8, 108u8, 116u8, 114u8, 97u8, 115u8, 111u8, 110u8, 105u8, 99u8, 95u8, 99u8, 109u8, 34u8, 58u8]
}

fn lj_ultra_x() -> (v: Vec<u8>)
    ensures
        v@ == lj_ultra(),
{
    let mut v: Vec<u8> = Vec::new();
    v.push(44u8); v.push(34u8); v.push(117u8); v.push(108u8); v.push(116u8); v.push(114u8); v.push(97u8); v.push(115u8); v.push(111u8); v.push(110u8); v.push(105u8); v.push(99u8); v.push(95u8); v.push(99u8); v.push(109u8); v.push(34u8); v.push(58u8);
    proof {
        assert(v@ =~= lj_ultra());
    }
    v
}

/// The bytes of `null`.
pub open spec fn lj_null() -> Seq<u8> {
    seq![110u8, 117u8, 108u8, 108u8]
}

fn lj_null_x() -> (v: Vec<u8>)
    ensures
        v@ == lj_null(),
{
    let mut v: Vec<u8> = Vec::new();
    v.push(110u8); v.push(117u8); v.push(108u8); v.push(108u8);
    proof {
        assert(v@ =~= lj_null());
    }
    v
}

/// One flat row of the telemetry table.
#[derive(Debug, Clone, PartialEq, Eq)]
pub struct SensorDataRow {
    pub id: i32,
    pub ts: i64,
    pub device: Vec<u8>,
    pub wifi_rssi: Option<i32>,
    pub bno_ok: Option<bool>,
    pub heading_deg: Option<Number>,
    pub roll_deg: Option<Number>,
    pub pitch_deg: Option<Number>,
    pub temp_c: Option<Number>,
    pub accel_x: Option<Number>,
    pub accel_y: Option<Number>,
    pub accel_z: Option<Number>,
    pub gyro_x: Option<Number>,
    pub gyro_y: Option<Number>,
    pub gyro_z: Option<Number>,
    pub mag_x: Option<Number>,
    pub mag_y: Option<Number>,
    pub mag_z: Option<Number>,
    pub calib_sys: Option<i32>,
    pub calib_gyro: Option<i32>,
    pub calib_accel: Option<i32>,
    pub calib_mag: Option<i32>,
    pub ultrasonic_cm: Option<Number>,
}

pub ghost struct RowModel {
    pub id: int,
    pub ts: int,
    pub device: Seq<u8>,
    pub wifi_rssi: Option<int>,
    pub bno_ok: Option<bool>,
    pub heading_deg: Option<Seq<u8>>,
    pub roll_deg: Option<Seq<u8>>,
    pub pitch_deg: Option<Seq<u8>>,
    pub temp_c: Option<Seq<u8>>,
    pub accel_x: Option<Seq<u8>>,
    pub accel_y: Option<Seq<u8>>,
    pub accel_z: Option<Seq<u8>>,
    pub gyro_x: Option<Seq<u8>>,
    pub gyro_y: Option<Seq<u8>>,
    pub gyro_z: Option<Seq<u8>>,
    pub mag_x: Option<Seq<u8>>,
    pub mag_y: Option<Seq<u8>>,
    pub mag_z: Option<Seq<u8>>,
    pub calib_sys: Option<int>,
    pub calib_gyro: Option<int>,
    pub calib_accel: Option<int>,
    pub calib_mag: Option<int>,
    pub ultrasonic_cm: Option<Seq<u8>>,
}

pub open spec fn opt_int_view(o: Option<i32>) -> Option<int> {
    match o {
        Some(v) => Some(v as int),
        None => None,
    }
}

impl View for SensorDataRow {
    type V = RowModel;

    open spec fn view(&self) -> RowModel {
        RowModel {
            id: self.id as int,
            ts: self.ts as int,
            device: self.device@,
            wifi_rssi: opt_int_view(self.wifi_rssi),
            bno_ok: self.bno_ok,
            heading_deg: opt_view(self.heading_deg),
            roll_deg: opt_view(self.roll_deg),
            pitch_deg: opt_view(self.pitch_deg),
            temp_c: opt_view(self.temp_c),
            accel_x: opt_view(self.accel_x),
            accel_y: opt_view(self.accel_y),
            accel_z: opt_view(self.accel_z),
            gyro_x: opt_view(self.gyro_x),
            gyro_y: opt_view(self.gyro_y),
            gyro_z: opt_view(self.gyro_z),
            mag_x: opt_view(self.mag_x),
            mag_y: opt_view(self.mag_y),
            mag_z: opt_view(self.mag_z),
            calib_sys: opt_int_view(self.calib_sys),
            calib_gyro: opt_int_view(self.calib_gyro),
            calib_accel: opt_int_view(self.calib_accel),
            calib_mag: opt_int_view(self.calib_mag),
            ultrasonic_cm: opt_view(self.ultrasonic_cm),
        }
    }
}

/// The flat row a record maps to: nested structures spread into one column
/// per scalar, every absent optional mapped to `None` at every depth.
pub open spec fn row_of(id: int, m: PayloadModel) -> RowModel {
    RowModel {
        id: id,
        ts: m.ts,
        device: m.device,
        wifi_rssi: match m.wifi {
            Some(w) => Some(w.rssi),
            None => None,
        },
        bno_ok: match m.bno055 {
            Some(b) => Some(b.ok),
            None => None,
        },
        heading_deg: match m.bno055 {
            Some(b) => b.heading_deg,
            None => None,
        },
        roll_deg: match m.bno055 {
            Some(b) => b.roll_deg,
            None => None,
        },
        pitch_deg: match m.bno055 {
            Some(b) => b.pitch_deg,
            None => None,
        },
        temp_c: match m.bno055 {
            Some(b) => b.temp_c,
            None => None,
        },
        accel_x: match m.bno055 {
            Some(b) => match b.linear_accel_ms2 {
                Some(v) => Some(v.x),
                None => None,
            },
            None => None,
        },
        accel_y: match m.bno055 {
            Some(b) => match b.linear_accel_ms2 {
                Some(v) => Some(v.y),
                None => None,
            },
            None => None,
        },
        accel_z: match m.bno055 {
            Some(b) => match b.linear_accel_ms2 {
                Some(v) => Some(v.z),
                None => None,
            },
            None => None,
        },
        gyro_x: match m.bno055 {
            Some(b) => match b.gyro_rads {
                Some(v) => Some(v.x),
                None => None,
            },
            None => None,
        },
        gyro_y: match m.bno055 {
            Some(b) => match b.gyro_rads {
                Some(v) => Some(v.y),
                None => None,
            },
            None => None,
        },
        gyro_z: match m.bno055 {
            Some(b) => match b.gyro_rads {
                Some(v) => Some(v.z),
                None => None,
            },
            None => None,
        },
        mag_x: match m.bno055 {
            Some(b) => match b.mag_uT {
                Some(v) => Some(v.x),
                None => None,
            },
            None => None,
        },
        mag_y: match m.bno055 {
            Some(b) => match b.mag_uT {
                Some(v) => Some(v.y),
                None => None,
            },
            None => None,
        },
        mag_z: match m.bno055 {
            Some(b) => match b.mag_uT {
                Some(v) => Some(v.z),
                None => None,
            },
            None => None,
        },
        calib_sys: match m.bno055 {
            Some(b) => match b.calib {
                Some(c) => Some(c.sys),
                None => None,
            },
            None => None,
        },
        calib_gyro: match m.bno055 {
            Some(b) => match b.calib {
                Some(c) => Some(c.gyro),
                None => None,
            },
            None => None,
        },
        calib_accel: match m.bno055 {
            Some(b) => match b.calib {
                Some(c) => Some(c.accel),
                None => None,
            },
            None => None,
        },
        calib_mag: match m.bno055 {
            Some(b) => match b.calib {
                Some(c) => Some(c.mag),
                None => None,
            },
            None => None,
        },
        ultrasonic_cm: m.ultrasonic_cm,
    }
}

fn split_v3(o: Option<Vector3>) -> (r: (Option<Number>, Option<Number>, Option<Number>))
    ensures
        match o {
            Some(v) => r.0 == Some(v.x) && r.1 == Some(v.y) && r.2 == Some(v.z),
            None => r.0 is None && r.1 is None && r.2 is None,
        },
{
    match o {
        Some(v) => (Some(v.x), Some(v.y), Some(v.z)),
        None => (None, None, None),
    }
}

fn split_calib(o: Option<Calib>) -> (r: (Option<i32>, Option<i32>, Option<i32>, Option<i32>))
    ensures
        match o {
            Some(c) => r.0 == Some(c.sys) && r.1 == Some(c.gyro) && r.2 == Some(c.accel) && r.3
                == Some(c.mag),
            None => r.0 is None && r.1 is None && r.2 is None && r.3 is None,
        },
{
    match o {
        Some(c) => (Some(c.sys), Some(c.gyro), Some(c.accel), Some(c.mag)),
        None => (None, None, None, None),
    }
}

/// The Persistence Writer's mapping: one record, one row. The record is
/// consumed; the embedding program performs the single insert attempt and
/// owns the surrogate identifier `id`.
pub fn to_row(id: i32, p: SensorPayload) -> (r: SensorDataRow)
    ensures
        r@ == row_of(id as int, p@),
{
    let SensorPayload { ts, device, wifi, bno055, ultrasonic_cm } = p;
    let wifi_rssi: Option<i32> = match wifi {
        Some(w) => Some(w.rssi),
        None => None,
    };
    let (bno_ok, heading_deg, roll_deg, pitch_deg, temp_c, lin, gyr, mag, calib): (
        Option<bool>,
        Option<Number>,
        Option<Number>,
        Option<Number>,
        Option<Number>,
        Option<Vector3>,
        Option<Vector3>,
        Option<Vector3>,
        Option<Calib>,
    ) = match bno055 {
        Some(b) => (
            Some(b.ok),
            b.heading_deg,
            b.roll_deg,
            b.pitch_deg,
            b.temp_c,
            b.linear_accel_ms2,
            b.gyro_rads,
            b.mag_uT,
            b.calib,
        ),
        None => (None, None, None, None, None, None, None, None, None),
    };
    let (accel_x, accel_y, accel_z) = split_v3(lin);
    let (gyro_x, gyro_y, gyro_z) = split_v3(gyr);
    let (mag_x, mag_y, mag_z) = split_v3(mag);
    let (calib_sys, calib_gyro, calib_accel, calib_mag) = split_calib(calib);
    SensorDataRow {
        id,
        ts,
        device,
        wifi_rssi,
        bno_ok,
        heading_deg,
        roll_deg,
        pitch_deg,
        temp_c,
        accel_x,
        accel_y,
        accel_z,
        gyro_x,
        gyro_y,
        gyro_z,
        mag_x,
        mag_y,
        mag_z,
        calib_sys,
        calib_gyro,
        calib_accel,
        calib_mag,
        ultrasonic_cm,
    }
}

// --------------------------------------------------- listing a row as JSON

pub open spec fn opt_int_rep(o: Option<int>) -> Seq<u8> {
    match o {
        Some(v) => int_rep(v),
        None => lj_null(),
    }
}

pub open spec fn opt_num_rep(o: Option<Seq<u8>>) -> Seq<u8> {
    match o {
        Some(t) => t,
        None => lj_null(),
    }
}

/// The JSON text one stored row is listed as by the history endpoints: the
/// identifier, instant, device and the scalar readings the viewers chart,
/// `null` for every unknown.
pub open spec fn row_json(r: RowModel) -> Seq<u8> {
    lj_id() + int_rep(r.id) + lj_ts() + int_rep(r.ts) + lj_device() + lex::str_rep(r.device)
        + lj_wifi() + opt_int_rep(r.wifi_rssi) + lj_heading() + opt_num_rep(r.heading_deg)
        + lj_roll() + opt_num_rep(r.roll_deg) + lj_pitch() + opt_num_rep(r.pitch_deg) + lj_temp()
        + opt_num_rep(r.temp_c) + lj_ultra() + opt_num_rep(r.ultrasonic_cm) + seq![125u8]
}

fn push_opt_i32(out: &mut Vec<u8>, o: &Option<i32>)
    ensures
        final(out)@ == old(out)@ + opt_int_rep(opt_int_view(*o)),
{
    match o {
        Some(v) => {
            lex::push_i64_dec(out, *v as i64);
        },
        None => {
            let n = lj_null_x();
            append_row_bytes(out, &n);
        },
    }
}

fn push_opt_num(out: &mut Vec<u8>, o: &Option<Number>)
    ensures
        final(out)@ == old(out)@ + opt_num_rep(opt_view(*o)),
{
    match o {
        Some(nr) => {
            append_row_bytes(out, &nr.tok);
        },
        None => {
            let n = lj_null_x();
            append_row_bytes(out, &n);
        },
    }
}

fn append_row_bytes(out: &mut Vec<u8>, add: &Vec<u8>)
    ensures
        final(out)@ == old(out)@ + add@,
{
    let mut k: usize = 0;
    while k < add.len()
        invariant
            0 <= k <= add.len(),
            out@ == old(out)@ + add@.subrange(0, k as int),
        decreases add.len() - k,
    {
        out.push(add[k]);
        k = k + 1;
        proof {
            assert(out@ =~= old(out)@ + add@.subrange(0, k as int));
        }
    }
    proof {
        assert(out@ =~= old(out)@ + add@);
    }
}

/// Serializes one stored row as the JSON object the listing endpoints hand
/// out, exactly as `row_json` says.
#[verifier::rlimit(60)]
pub fn row_to_json(r: &SensorDataRow) -> (out: Vec<u8>)
    ensures
        out@ == row_json(r@),
{
    let mut out: Vec<u8> = Vec::new();
    let a = lj_id_x();
    append_row_bytes(&mut out, &a);
    lex::push_i64_dec(&mut out, r.id as i64);
    let b = lj_ts_x();
    append_row_bytes(&mut out, &b);
    lex::push_i64_dec(&mut out, r.ts);
    let c = lj_device_x();
    append_row_bytes(&mut out, &c);
    out.push(34u8);
    append_row_bytes(&mut out, &r.device);
    out.push(34u8);
    let d = lj_wifi_x();
    append_row_bytes(&mut out, &d);
    push_opt_i32(&mut out, &r.wifi_rssi);
    let e = lj_heading_x();
    append_row_bytes(&mut out, &e);
    push_opt_num(&mut out, &r.heading_deg);
    let f = lj_roll_x();
    append_row_bytes(&mut out, &f);
    push_opt_num(&mut out, &r.roll_deg);
    let g = lj_pitch_x();
    append_row_bytes(&mut out, &g);
    push_opt_num(&mut out, &r.pitch_deg);
    let h = lj_temp_x();
    append_row_bytes(&mut out, &h);
    push_opt_num(&mut out, &r.temp_c);
    let i = lj_ultra_x();
    append_row_bytes(&mut out, &i);
    push_opt_num(&mut out, &r.ultrasonic_cm);
    out.push(125u8);
    proof {
        assert(out@ =~= row_json(r@));
    }
    out
}

} // verus!
