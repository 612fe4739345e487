//! Data model of the pipeline: the structured telemetry record produced by
//! the payload decoder, and the two simple record types of the generic
//! record store. Numeric sensor readings are carried as their exact decimal
//! tokens, so nothing is rounded and an absent reading stays absent.

use vstd::prelude::*;
use crate::lex;

verus! {

/// One numeric reading, kept as the bytes of its decimal token
/// (for instance `-12.5`). Well-formed when the bytes form one number token.
#[derive(Debug, Clone, PartialEq, Eq)]
pub struct Number {
    pub tok: Vec<u8>,
}

impl View for Number {
    type V = Seq<u8>;

    open spec fn view(&self) -> Seq<u8> {
        self.tok@
    }
}

/// A 3-axis reading.
#[derive(Debug, Clone, PartialEq, Eq)]
pub struct Vector3 {
    pub x: Number,
    pub y: Number,
    pub z: Number,
}

pub ghost struct Vector3Model {
    pub x: Seq<u8>,
    pub y: Seq<u8>,
    pub z: Seq<u8>,
}

impl View for Vector3 {
    type V = Vector3Model;

    open spec fn view(&self) -> Vector3Model {
        Vector3Model { x: self.x@, y: self.y@, z: self.z@ }
    }
}

pub open spec fn vector3_wf(v: Vector3Model) -> bool {
    lex::num_tok(v.x) && lex::num_tok(v.y) && lex::num_tok(v.z)
}

/// Calibration quality of the four sensor channels.
#[derive(Debug, Clone, PartialEq, Eq)]
pub struct Calib {
    pub sys: i32,
    pub gyro: i32,
    pub accel: i32,
    pub mag: i32,
}

pub ghost struct CalibModel {
    pub sys: int,
    pub gyro: int,
    pub accel: int,
    pub mag: int,
}

impl View for Calib {
    type V = CalibModel;

    open spec fn view(&self) -> CalibModel {
        CalibModel {
            sys: self.sys as int,
            gyro: self.gyro as int,
            accel: self.accel as int,
            mag: self.mag as int,
        }
    }
}

pub open spec fn i32_range(v: int) -> bool {
    i32::MIN <= v <= i32::MAX
}

pub open spec fn calib_wf(c: CalibModel) -> bool {
    i32_range(c.sys) && i32_range(c.gyro) && i32_range(c.accel) && i32_range(c.mag)
}

/// Signal strength of the device's network link.
#[derive(Debug, Clone, PartialEq, Eq)]
pub struct Wifi {
    pub rssi: i32,
}

pub ghost struct WifiModel {
    pub rssi: int,
}

impl View for Wifi {
    type V = WifiModel;

    open spec fn view(&self) -> WifiModel {
        WifiModel { rssi: self.rssi as int }
    }
}

pub open spec fn wifi_wf(w: WifiModel) -> bool {
    i32_range(w.rssi)
}

/// Orientation sensor block: a health flag and independently optional
/// readings.
#[allow(non_snake_case)]
#[derive(Debug, Clone, PartialEq, Eq)]
pub struct Bno055 {
    pub ok: bool,
    pub heading_deg: Option<Number>,
    pub roll_deg: Option<Number>,
    pub pitch_deg: Option<Number>,
    pub temp_c: Option<Number>,
    pub linear_accel_ms2: Option<Vector3>,
    pub gyro_rads: Option<Vector3>,
    pub mag_uT: Option<Vector3>,
    pub calib: Option<Calib>,
}

#[allow(non_snake_case)]
pub ghost struct BnoModel {
    pub ok: bool,
    pub heading_deg: Option<Seq<u8>>,
    pub roll_deg: Option<Seq<u8>>,
    pub pitch_deg: Option<Seq<u8>>,
    pub temp_c: Option<Seq<u8>>,
    pub linear_accel_ms2: Option<Vector3Model>,
    pub gyro_rads: Option<Vector3Model>,
    pub mag_uT: Option<Vector3Model>,
    pub calib: Option<CalibModel>,
}

/// View of an optional structured value.
pub open spec fn opt_view<T: View>(o: Option<T>) -> Option<T::V> {
    match o {
        Some(t) => Some(t@),
        None => None,
    }
}

impl View for Bno055 {
    type V = BnoModel;

    open spec fn view(&self) -> BnoModel {
        BnoModel {
            ok: self.ok,
            heading_deg: opt_view(self.heading_deg),
            roll_deg: opt_view(self.roll_deg),
            pitch_deg: opt_view(self.pitch_deg),
            temp_c: opt_view(self.temp_c),
            linear_accel_ms2: opt_view(self.linear_accel_ms2),
            gyro_rads: opt_view(self.gyro_rads),
            mag_uT: opt_view(self.mag_uT),
            calib: opt_view(self.calib),
        }
    }
}

pub open spec fn opt_num_wf(o: Option<Seq<u8>>) -> bool {
    match o {
        Some(t) => lex::num_tok(t),
        None => true,
    }
}

pub open spec fn opt_vector3_wf(o: Option<Vector3Model>) -> bool {
    match o {
        Some(v) => vector3_wf(v),
        None => true,
    }
}

pub open spec fn bno_wf(b: BnoModel) -> bool {
    &&& opt_num_wf(b.heading_deg)
    &&& opt_num_wf(b.roll_deg)
    &&& opt_num_wf(b.pitch_deg)
    &&& opt_num_wf(b.temp_c)
    &&& opt_vector3_wf(b.linear_accel_ms2)
    &&& opt_vector3_wf(b.gyro_rads)
    &&& opt_vector3_wf(b.mag_uT)
    &&& match b.calib {
        Some(c) => calib_wf(c),
        None => true,
    }
}

/// One decoded device observation. `ts` and `device` are always present;
/// everything else is independently optional and never defaulted.
#[derive(Debug, Clone, PartialEq, Eq)]
pub struct SensorPayload {
    pub ts: i64,
    pub device: Vec<u8>,
    pub wifi: Option<Wifi>,
    pub bno055: Option<Bno055>,
    pub ultrasonic_cm: Option<Number>,
}

pub ghost struct PayloadModel {
    pub ts: int,
    pub device: Seq<u8>,
    pub wifi: Option<WifiModel>,
    pub bno055: Option<BnoModel>,
    pub ultrasonic_cm: Option<Seq<u8>>,
}

impl View for SensorPayload {
    type V = PayloadModel;

    open spec fn view(&self) -> PayloadModel {
        PayloadModel {
            ts: self.ts as int,
            device: self.device@,
            wifi: opt_view(self.wifi),
            bno055: opt_view(self.bno055),
            ultrasonic_cm: opt_view(self.ultrasonic_cm),
        }
    }
}

pub open spec fn payload_wf(p: PayloadModel) -> bool {
    &&& i64::MIN <= p.ts <= i64::MAX
    &&& lex::str_ok(p.device)
    &&& match p.wifi {
        Some(w) => wifi_wf(w),
        None => true,
    }
    &&& match p.bno055 {
        Some(b) => bno_wf(b),
        None => true,
    }
    &&& opt_num_wf(p.ultrasonic_cm)
}

impl SensorPayload {
    /// Well-formedness of the record as decoded: every kept token really is
    /// one token of the payload grammar.
    pub open spec fn wf(&self) -> bool {
        payload_wf(self@)
    }
}

/// A named record of the generic record store.
#[derive(Debug, Clone, PartialEq, Eq)]
pub struct Item {
    pub id: String,
    pub nome: String,
}

impl Item {
    /// Builds the stored record from a freshly generated identifier and the
    /// requested name.
    pub fn build(id: String, nome: String) -> (r: Item)
        ensures
            r.id@ == id@,
            r.nome@ == nome@,
    {
        Item { id, nome }
    }
}

/// A request to create a named record.
#[derive(Debug, Clone, PartialEq, Eq)]
pub struct CreateItem {
    pub nome: String,
}

} // verus!
