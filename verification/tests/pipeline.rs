use iot_pipeline::codec::{decode, encode};
use iot_pipeline::hub::{Hub, RecvOutcome};
use iot_pipeline::ingest::{
    after_persist, ingest_step, on_transport_loss, StoreOutcome, RECONNECT_DELAY_MS,
    STORE_RETRY_DELAY_MS,
};
use iot_pipeline::models::{Bno055, Calib, CreateItem, Item, Number, SensorPayload, Vector3, Wifi};
use iot_pipeline::session::{session_step, SessionAct};
use iot_pipeline::store::{row_to_json, to_row};

fn b(s: &str) -> Vec<u8> {
    s.as_bytes().to_vec()
}

fn num(s: &str) -> Number {
    Number { tok: b(s) }
}

fn bare_bno() -> Bno055 {
    Bno055 {
        ok: true,
        heading_deg: None,
        roll_deg: None,
        pitch_deg: None,
        temp_c: None,
        linear_accel_ms2: None,
        gyro_rads: None,
        mag_uT: None,
        calib: None,
    }
}

#[test]
fn scenario_a_decodes_exactly() {
    let p = b("{\"ts\":1690000000,\"device\":\"esp1\",\"bno055\":{\"ok\":true,\"heading_deg\":10.0},\"ultrasonic_cm\":50.0}");
    let rec = decode(&p).expect("scenario A payload must decode");
    assert_eq!(rec.ts, 1690000000);
    assert_eq!(rec.device, b("esp1"));
    assert!(rec.wifi.is_none());
    let bno = rec.bno055.clone().expect("bno055 present");
    assert!(bno.ok);
    assert_eq!(bno.heading_deg, Some(num("10.0")));
    assert!(bno.roll_deg.is_none());
    assert!(bno.pitch_deg.is_none());
    assert!(bno.temp_c.is_none());
    assert!(bno.linear_accel_ms2.is_none());
    assert!(bno.gyro_rads.is_none());
    assert!(bno.mag_uT.is_none());
    assert!(bno.calib.is_none());
    assert_eq!(rec.ultrasonic_cm, Some(num("50.0")));
}

#[test]
fn scenario_a_row_has_nulls_for_absent_columns() {
    let p = b("{\"ts\":1690000000,\"device\":\"esp1\",\"bno055\":{\"ok\":true,\"heading_deg\":10.0},\"ultrasonic_cm\":50.0}");
    let rec = decode(&p).unwrap();
    let row = to_row(7, rec);
    assert_eq!(row.id, 7);
    assert_eq!(row.ts, 1690000000);
    assert_eq!(row.device, b("esp1"));
    assert_eq!(row.bno_ok, Some(true));
    assert_eq!(row.heading_deg, Some(num("10.0")));
    assert_eq!(row.ultrasonic_cm, Some(num("50.0")));
    assert!(row.wifi_rssi.is_none());
    assert!(row.roll_deg.is_none());
    assert!(row.pitch_deg.is_none());
    assert!(row.temp_c.is_none());
    assert!(row.accel_x.is_none());
    assert!(row.accel_y.is_none());
    assert!(row.accel_z.is_none());
    assert!(row.gyro_x.is_none());
    assert!(row.gyro_y.is_none());
    assert!(row.gyro_z.is_none());
    assert!(row.mag_x.is_none());
    assert!(row.mag_y.is_none());
    assert!(row.mag_z.is_none());
    assert!(row.calib_sys.is_none());
    assert!(row.calib_gyro.is_none());
    assert!(row.calib_accel.is_none());
    assert!(row.calib_mag.is_none());
}

#[test]
fn scenario_a_every_viewer_gets_the_exact_text() {
    let text = b("{\"ts\":1690000000,\"device\":\"esp1\",\"bno055\":{\"ok\":true,\"heading_deg\":10.0},\"ultrasonic_cm\":50.0}");
    let mut hub = Hub::with_capacity(100);
    let mut v1 = hub.subscribe();
    let mut v2 = hub.subscribe();
    let rec = ingest_step(&mut hub, &text);
    assert!(rec.is_some());
    assert_eq!(hub.recv(&mut v1), RecvOutcome::Delivered(text.clone()));
    assert_eq!(hub.recv(&mut v2), RecvOutcome::Delivered(text.clone()));
}

#[test]
fn scenario_b_malformed_is_broadcast_but_never_persisted() {
    let text = b("not json");
    let mut hub = Hub::with_capacity(100);
    let mut viewer = hub.subscribe();
    let rec = ingest_step(&mut hub, &text);
    assert!(rec.is_none(), "no record may be handed to the writer");
    assert_eq!(hub.recv(&mut viewer), RecvOutcome::Delivered(b("not json")));
}

#[test]
fn scenario_c_store_outage_never_stops_the_loop() {
    let mut hub = Hub::with_capacity(100);
    let mut viewer = hub.subscribe();
    let payloads: Vec<Vec<u8>> = (0..6)
        .map(|i| b(&format!("{{\"ts\":{},\"device\":\"esp1\"}}", 1690000000u64 + i)))
        .collect();
    let mut rows: Vec<i64> = Vec::new();
    for (i, p) in payloads.iter().enumerate() {
        let rec = ingest_step(&mut hub, p).expect("all six decode");
        // the store fails for the first three records, then recovers
        let outcome = if i < 3 { StoreOutcome::Failed } else {
            rows.push(rec.ts);
            StoreOutcome::Stored
        };
        let pause = after_persist(&outcome);
        if i < 3 {
            assert_eq!(pause, STORE_RETRY_DELAY_MS);
        } else {
            assert_eq!(pause, 0);
        }
    }
    // zero rows for the outage, the three after recovery persisted in order
    assert_eq!(rows, vec![1690000003, 1690000004, 1690000005]);
    // all six broadcast, in arrival order
    for p in payloads.iter() {
        assert_eq!(hub.recv(&mut viewer), RecvOutcome::Delivered(p.clone()));
    }
    assert_eq!(hub.recv(&mut viewer), RecvOutcome::Pending);
}

#[test]
fn round_trip_full_record() {
    let rec = SensorPayload {
        ts: -5,
        device: b("dev-42"),
        wifi: Some(Wifi { rssi: -63 }),
        bno055: Some(Bno055 {
            ok: false,
            heading_deg: Some(num("359.9")),
            roll_deg: Some(num("-1.25")),
            pitch_deg: Some(num("0")),
            temp_c: Some(num("24.5")),
            linear_accel_ms2: Some(Vector3 { x: num("0.1"), y: num("-0.2"), z: num("9.81") }),
            gyro_rads: Some(Vector3 { x: num("0"), y: num("0.01"), z: num("-0.01") }),
            mag_uT: Some(Vector3 { x: num("12.5"), y: num("-33"), z: num("7") }),
            calib: Some(Calib { sys: 3, gyro: 2, accel: 1, mag: 0 }),
        }),
        ultrasonic_cm: Some(num("17.5")),
    };
    let bytes = encode(&rec);
    let back = decode(&bytes).expect("canonical encoding must decode");
    assert_eq!(back, rec);
}

#[test]
fn round_trip_minimal_record() {
    let rec = SensorPayload {
        ts: 0,
        device: b(""),
        wifi: None,
        bno055: None,
        ultrasonic_cm: None,
    };
    let bytes = encode(&rec);
    assert_eq!(bytes, b("{\"ts\":0,\"device\":\"\"}"));
    let back = decode(&bytes).expect("minimal encoding must decode");
    assert_eq!(back, rec);
}

#[test]
fn round_trip_scenario_a_text_is_reproduced() {
    let p = b("{\"ts\":1690000000,\"device\":\"esp1\",\"bno055\":{\"ok\":true,\"heading_deg\":10.0},\"ultrasonic_cm\":50.0}");
    let rec = decode(&p).unwrap();
    assert_eq!(encode(&rec), p);
}

#[test]
fn decoder_requires_mandatory_fields() {
    assert!(decode(&b("{\"device\":\"esp1\"}")).is_err());
    assert!(decode(&b("{\"ts\":5}")).is_err());
    assert!(decode(&b("{}")).is_err());
    assert!(decode(&b("")).is_err());
    assert!(decode(&b("{\"ts\":5,\"device\":3}")).is_err());
    assert!(decode(&b("{\"ts\":\"5\",\"device\":\"a\"}")).is_err());
}

#[test]
fn decoder_rejects_trailing_or_broken_syntax() {
    assert!(decode(&b("{\"ts\":1,\"device\":\"a\"}x")).is_err());
    assert!(decode(&b("{\"ts\":1,\"device\":\"a\"")).is_err());
    assert!(decode(&b("{\"ts\":01,\"device\":\"a\"}")).is_err());
    assert!(decode(&b("{\"ts\":1.5,\"device\":\"a\"}")).is_err());
    assert!(decode(&b("{\"ts\":1,\"device\":\"a\",\"ultrasonic_cm\":1.}")).is_err());
    assert!(decode(&b("{\"ts\":1,\"device\":\"a\",\"ultrasonic_cm\":.5}")).is_err());
    assert!(decode(&b("{\"ts\":1,\"device\":\"a\",\"ultrasonic_cm\":00.5}")).is_err());
}

#[test]
fn decoder_handles_integer_bounds() {
    let max = decode(&b("{\"ts\":9223372036854775807,\"device\":\"a\"}")).unwrap();
    assert_eq!(max.ts, i64::MAX);
    let min = decode(&b("{\"ts\":-9223372036854775808,\"device\":\"a\"}")).unwrap();
    assert_eq!(min.ts, i64::MIN);
    assert!(decode(&b("{\"ts\":9223372036854775808,\"device\":\"a\"}")).is_err());
    let w = decode(&b("{\"ts\":1,\"device\":\"a\",\"wifi\":{\"rssi\":-2147483648}}")).unwrap();
    assert_eq!(w.wifi, Some(Wifi { rssi: i32::MIN }));
    assert!(decode(&b("{\"ts\":1,\"device\":\"a\",\"wifi\":{\"rssi\":-2147483649}}")).is_err());
    assert!(decode(&b("{\"ts\":1,\"device\":\"a\",\"wifi\":{\"rssi\":2147483648}}")).is_err());
}

#[test]
fn decoder_reads_wifi_and_calib() {
    let p = b("{\"ts\":2,\"device\":\"kit\",\"wifi\":{\"rssi\":-40},\"bno055\":{\"ok\":true,\"calib\":{\"sys\":3,\"gyro\":2,\"accel\":1,\"mag\":0}}}");
    let rec = decode(&p).unwrap();
    assert_eq!(rec.wifi, Some(Wifi { rssi: -40 }));
    let bno = rec.bno055.unwrap();
    assert_eq!(bno.calib, Some(Calib { sys: 3, gyro: 2, accel: 1, mag: 0 }));
    assert!(bno.heading_deg.is_none());
}

#[test]
fn subscriber_created_between_two_messages_sees_only_the_second() {
    let mut hub = Hub::with_capacity(100);
    let m1 = b("first");
    let m2 = b("second");
    hub.publish(m1);
    let mut late = hub.subscribe();
    hub.publish(m2.clone());
    assert_eq!(hub.recv(&mut late), RecvOutcome::Delivered(m2));
    assert_eq!(hub.recv(&mut late), RecvOutcome::Pending);
}

#[test]
fn overflow_drops_oldest_and_reports_one_gap() {
    let mut hub = Hub::with_capacity(3);
    let mut slow = hub.subscribe();
    for i in 0..4 {
        hub.publish(b(&format!("m{}", i)));
    }
    assert_eq!(hub.recv(&mut slow), RecvOutcome::Lagged(1));
    assert_eq!(hub.recv(&mut slow), RecvOutcome::Delivered(b("m1")));
    assert_eq!(hub.recv(&mut slow), RecvOutcome::Delivered(b("m2")));
    assert_eq!(hub.recv(&mut slow), RecvOutcome::Delivered(b("m3")));
    assert_eq!(hub.recv(&mut slow), RecvOutcome::Pending);
}

#[test]
fn closed_hub_ends_the_stream_after_draining() {
    let mut hub = Hub::with_capacity(4);
    let mut viewer = hub.subscribe();
    hub.publish(b("last"));
    hub.close();
    assert_eq!(hub.recv(&mut viewer), RecvOutcome::Delivered(b("last")));
    assert_eq!(hub.recv(&mut viewer), RecvOutcome::Ended);
}

#[test]
fn zero_subscribers_is_fine() {
    let mut hub = Hub::with_capacity(2);
    hub.publish(b("nobody listens"));
    let mut late = hub.subscribe();
    assert_eq!(hub.recv(&mut late), RecvOutcome::Pending);
}

#[test]
fn session_policy() {
    assert_eq!(
        session_step(RecvOutcome::Delivered(b("frame"))),
        SessionAct::Forward(b("frame"))
    );
    assert_eq!(session_step(RecvOutcome::Lagged(5)), SessionAct::SkipGap);
    assert_eq!(session_step(RecvOutcome::Pending), SessionAct::Wait);
    assert_eq!(session_step(RecvOutcome::Ended), SessionAct::Stop);
}

#[test]
fn persist_pause_policy() {
    assert_eq!(after_persist(&StoreOutcome::Failed), 200);
    assert_eq!(after_persist(&StoreOutcome::Stored), 0);
    assert_eq!(STORE_RETRY_DELAY_MS, 200);
}

#[test]
fn transport_loss_policy_always_retries() {
    let policy = on_transport_loss();
    assert_eq!(policy.delay_ms, RECONNECT_DELAY_MS);
    assert!(policy.resubscribe);
}

#[test]
fn row_json_lists_every_charted_column() {
    let p = b("{\"ts\":3,\"device\":\"esp1\",\"wifi\":{\"rssi\":-40},\"ultrasonic_cm\":50.0}");
    let row = to_row(1, decode(&p).unwrap());
    let json = row_to_json(&row);
    assert_eq!(
        json,
        b("{\"id\":1,\"ts\":3,\"device\":\"esp1\",\"wifi_rssi\":-40,\"heading_deg\":null,\"roll_deg\":null,\"pitch_deg\":null,\"temp_c\":null,\"ultrasonic_cm\":50.0}")
    );
}

#[test]
fn members_in_any_order_decode_alike() {
    let canonical = decode(&b("{\"ts\":1,\"device\":\"esp1\",\"wifi\":{\"rssi\":-40}}")).unwrap();
    let reordered = decode(&b("{\"wifi\":{\"rssi\":-40},\"device\":\"esp1\",\"ts\":1}")).unwrap();
    assert_eq!(canonical, reordered);
}

#[test]
fn whitespace_between_tokens_is_accepted() {
    let p = b(" { \"ts\" : 1690000000 ,\n\t\"device\" : \"esp1\" ,\r\n \"ultrasonic_cm\" : 50.0 } ");
    let rec = decode(&p).unwrap();
    assert_eq!(rec.ts, 1690000000);
    assert_eq!(rec.device, b("esp1"));
    assert_eq!(rec.ultrasonic_cm, Some(num("50.0")));
}

#[test]
fn null_optionals_stay_absent() {
    let p = b("{\"ts\":1,\"device\":\"a\",\"wifi\":null,\"bno055\":null,\"ultrasonic_cm\":null}");
    let rec = decode(&p).unwrap();
    assert!(rec.wifi.is_none());
    assert!(rec.bno055.is_none());
    assert!(rec.ultrasonic_cm.is_none());
}

#[test]
fn unknown_members_are_ignored() {
    let p = b("{\"ts\":1,\"device\":\"a\",\"firmware\":\"v2.1\\n\",\"flags\":[1,{\"deep\":[true,null]},\"s\"],\"ultrasonic_cm\":3}");
    let rec = decode(&p).unwrap();
    assert_eq!(rec.device, b("a"));
    assert_eq!(rec.ultrasonic_cm, Some(num("3")));
}

#[test]
fn exponent_numbers_are_kept_verbatim() {
    let p = b("{\"ts\":1,\"device\":\"a\",\"ultrasonic_cm\":1.5e2}");
    let rec = decode(&p).unwrap();
    assert_eq!(rec.ultrasonic_cm, Some(num("1.5e2")));
    assert_eq!(encode(&rec), p);
    let q = b("{\"ts\":1,\"device\":\"a\",\"ultrasonic_cm\":-2E-3}");
    assert_eq!(decode(&q).unwrap().ultrasonic_cm, Some(num("-2E-3")));
}

#[test]
fn duplicate_known_members_are_rejected() {
    assert!(decode(&b("{\"ts\":1,\"ts\":2,\"device\":\"a\"}")).is_err());
    assert!(decode(&b("{\"ts\":1,\"device\":\"a\",\"device\":\"b\"}")).is_err());
    // a repeated unknown member is no concern of the schema
    assert!(decode(&b("{\"ts\":1,\"device\":\"a\",\"spare\":1,\"spare\":2}")).is_ok());
}

#[test]
fn nested_objects_reorder_too() {
    let p = b("{\"device\":\"esp1\",\"bno055\":{\"calib\":{\"mag\":3,\"sys\":0,\"accel\":2,\"gyro\":1},\"ok\":true,\"mag_uT\":{\"z\":\
9,\"x\":7,\"y\":8}},\"ts\":2}");
    let rec = decode(&p).unwrap();
    let bno = rec.bno055.unwrap();
    assert!(bno.ok);
    assert_eq!(bno.calib, Some(Calib { sys: 0, gyro: 1, accel: 2, mag: 3 }));
    assert_eq!(
        bno.mag_uT,
        Some(Vector3 { x: num("7"), y: num("8"), z: num("9") })
    );
}

#[test]
fn a_fractional_timestamp_is_no_timestamp() {
    assert!(decode(&b("{\"device\":\"a\",\"ts\":1.5}")).is_err());
    assert!(decode(&b("{\"device\":\"a\",\"ts\":1e3}")).is_err());
    assert!(decode(&b("{\"device\":\"a\",\"ts\":null}")).is_err());
}

#[test]
fn deep_overflow_reports_the_whole_gap() {
    let mut hub = Hub::with_capacity(3);
    let mut slow = hub.subscribe();
    for i in 0..8 {
        hub.publish(b(&format!("m{}", i)));
    }
    assert_eq!(hub.recv(&mut slow), RecvOutcome::Lagged(5));
    assert_eq!(hub.recv(&mut slow), RecvOutcome::Delivered(b("m5")));
}

#[test]
fn device_names_pass_through_as_bytes() {
    let p = b("{\"ts\":1,\"device\":\"sala-\u{00e9}\"}");
    let rec = decode(&p).unwrap();
    assert_eq!(rec.device, "sala-\u{00e9}".as_bytes().to_vec());
    assert_eq!(encode(&rec), p);
}

#[test]
fn encode_emits_exactly_the_present_members() {
    let rec = SensorPayload {
        ts: 42,
        device: b("kit"),
        wifi: Some(Wifi { rssi: -70 }),
        bno055: None,
        ultrasonic_cm: Some(num("3.25")),
    };
    assert_eq!(
        encode(&rec),
        b("{\"ts\":42,\"device\":\"kit\",\"wifi\":{\"rssi\":-70},\"ultrasonic_cm\":3.25}")
    );
}

#[test]
fn item_builder_keeps_both_fields() {
    let item = Item::build("id-1".to_string(), "sensor kit".to_string());
    assert_eq!(item.id, "id-1");
    assert_eq!(item.nome, "sensor kit");
    let req = CreateItem { nome: "x".to_string() };
    assert_eq!(req.nome, "x");
}

#[test]
fn full_record_row_spreads_vectors_into_columns() {
    let rec = SensorPayload {
        ts: 9,
        device: b("d"),
        wifi: Some(Wifi { rssi: -1 }),
        bno055: Some(Bno055 {
            linear_accel_ms2: Some(Vector3 { x: num("1"), y: num("2"), z: num("3") }),
            gyro_rads: Some(Vector3 { x: num("4"), y: num("5"), z: num("6") }),
            mag_uT: Some(Vector3 { x: num("7"), y: num("8"), z: num("9") }),
            calib: Some(Calib { sys: 0, gyro: 1, accel: 2, mag: 3 }),
            ..bare_bno()
        }),
        ultrasonic_cm: None,
    };
    let row = to_row(0, rec);
    assert_eq!(row.accel_x, Some(num("1")));
    assert_eq!(row.accel_y, Some(num("2")));
    assert_eq!(row.accel_z, Some(num("3")));
    assert_eq!(row.gyro_x, Some(num("4")));
    assert_eq!(row.gyro_y, Some(num("5")));
    assert_eq!(row.gyro_z, Some(num("6")));
    assert_eq!(row.mag_x, Some(num("7")));
    assert_eq!(row.mag_y, Some(num("8")));
    assert_eq!(row.mag_z, Some(num("9")));
    assert_eq!(row.calib_sys, Some(0));
    assert_eq!(row.calib_mag, Some(3));
    assert!(row.ultrasonic_cm.is_none());
}
