use hop_relay::codec::{from_wire, to_wire};
use hop_relay::message::{Msg, Ping};
use serde_json::Value;

fn ping_value(source: u64, hops: u64) -> Value {
    let mut fields = serde_json::Map::new();
    fields.insert(String::from("source"), Value::from(source));
    fields.insert(String::from("hops"), Value::from(hops));
    let mut outer = serde_json::Map::new();
    outer.insert(String::from("Ping"), Value::Object(fields));
    Value::Object(outer)
}

#[test]
fn written_ping_is_a_json_object() {
    let pairs: [(u16, u32); 4] = [(0, 0), (9001, 7), (65535, 4294967295), (10, 1000)];
    for (source, hops) in pairs.iter() {
        let text = to_wire(&Msg::Ping(Ping { source: *source, hops: *hops }));
        let value: Value = serde_json::from_slice(&text).unwrap();
        assert_eq!(value, ping_value(*source as u64, *hops as u64));
        let outer = value.as_object().unwrap();
        assert_eq!(outer.len(), 1);
        let fields = outer.get("Ping").unwrap().as_object().unwrap();
        assert_eq!(fields.len(), 2);
        assert_eq!(fields.get("source").unwrap().as_u64(), Some(*source as u64));
        assert_eq!(fields.get("hops").unwrap().as_u64(), Some(*hops as u64));
    }
}

#[test]
fn written_done_is_a_json_string() {
    let value: Value = serde_json::from_slice(&to_wire(&Msg::Done)).unwrap();
    assert_eq!(value, Value::String(String::from("Done")));
}

#[test]
fn reads_what_a_json_writer_writes() {
    let pairs: [(u16, u32); 4] = [(0, 0), (9002, 12), (65535, 4294967295), (100, 99)];
    for (source, hops) in pairs.iter() {
        let value = ping_value(*source as u64, *hops as u64);
        let expected = Ok(Msg::Ping(Ping { source: *source, hops: *hops }));
        assert_eq!(from_wire(&serde_json::to_vec(&value).unwrap()), expected);
        assert_eq!(from_wire(&serde_json::to_vec_pretty(&value).unwrap()), expected);
    }
    let done = Value::String(String::from("Done"));
    assert_eq!(from_wire(&serde_json::to_vec(&done).unwrap()), Ok(Msg::Done));
    assert_eq!(from_wire(&serde_json::to_vec_pretty(&done).unwrap()), Ok(Msg::Done));
}

#[test]
fn refuses_json_of_another_shape() {
    let too_far = ping_value(65536, 1);
    assert!(from_wire(&serde_json::to_vec(&too_far).unwrap()).is_err());
    let too_many = ping_value(1, 4294967296);
    assert!(from_wire(&serde_json::to_vec(&too_many).unwrap()).is_err());
    let other = Value::String(String::from("Stop"));
    assert!(from_wire(&serde_json::to_vec(&other).unwrap()).is_err());
    assert!(from_wire(&serde_json::to_vec(&Value::Null).unwrap()).is_err());
    let list = Value::Array(vec![Value::from(1u64), Value::from(2u64)]);
    assert!(from_wire(&serde_json::to_vec(&list).unwrap()).is_err());
}
