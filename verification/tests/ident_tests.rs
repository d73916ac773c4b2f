use ecs_wire::ident::IdRegistry;
use ecs_wire::wire::{DecodeError, Deserialize, Serialize, Wire};

// The registry replaces the original's global per-group counters: each
// registered type asks the registry for its id at startup.

#[derive(Debug, PartialEq)]
struct OneFieldRecord {
    x: u32,
}

impl Wire for OneFieldRecord {
    type Model = ();
}

impl Serialize for OneFieldRecord {
    fn serialize(&self) -> Vec<u8> {
        self.x.serialize()
    }
}

#[derive(Debug, PartialEq)]
struct TwoSameRecord {
    x: u32,
    y: u32,
}

impl Wire for TwoSameRecord {
    type Model = ();
}

impl Serialize for TwoSameRecord {
    fn serialize(&self) -> Vec<u8> {
        let mut result = self.x.serialize();
        result.append(&mut self.y.serialize());
        result
    }
}

#[derive(Debug, PartialEq)]
struct TwoDiffRecord {
    x: u8,
    y: u32,
}

impl Wire for TwoDiffRecord {
    type Model = ();
}

impl Serialize for TwoDiffRecord {
    fn serialize(&self) -> Vec<u8> {
        let mut result = self.x.serialize();
        result.append(&mut self.y.serialize());
        result
    }
}

#[test]
fn increasing_ids_same_group() {
    let mut registry = IdRegistry::new();
    let group = String::from("test");
    // one registration per type: TSOne, TSTwo, TSThree
    let ts_one = registry.assign(&group);
    let ts_two = registry.assign(&group);
    let ts_three = registry.assign(&group);

    assert_eq!(ts_one, 0);
    assert_eq!(ts_two, 1);
    assert_eq!(ts_three, 2);
}

#[test]
fn same_ids_diff_groups() {
    let mut registry = IdRegistry::new();
    let ts_one = registry.assign(&String::from("test1"));
    let ts_two = registry.assign(&String::from("test2"));

    assert_eq!(ts_one, 0);
    assert_eq!(ts_two, 0);
}

#[test]
fn serialize_primitive() {
    let test_struct = OneFieldRecord { x: 69 };
    assert_eq!(test_struct.serialize(), vec![0u8, 0, 0, 69]);
}

#[test]
fn serialize_two_same_primitive() {
    let test_struct = TwoSameRecord { x: 69, y: 420 };
    assert_eq!(test_struct.serialize(), vec![0u8, 0, 0, 69, 0, 0, 1, 164]);
}

#[test]
fn serialize_two_diff_primitive() {
    let test_struct = TwoDiffRecord { x: 69, y: 420 };
    assert_eq!(test_struct.serialize(), vec![69u8, 0, 0, 1, 164]); // [1, 164] == 420
}

#[test]
fn serialize_deserialize_float() {
    // floating point travels as its IEEE-754 bit pattern in the same-width
    // unsigned integer's format
    let test_val: f32 = 69.420;
    let encoded = test_val.to_bits().serialize();
    let decoded = f32::from_bits(u32::deserialize(&encoded).unwrap().1);
    assert_eq!(decoded, test_val);
}

#[test]
fn serialize_deserialize_int() {
    let test_cases = [69i32, i32::MIN, i32::MAX];
    for case in test_cases.iter() {
        assert_eq!(i32::deserialize(&case.serialize()).unwrap().1, *case);
    }
}

#[test]
fn serialize_deserialize_array() {
    let test_arr = [0u32, 1, 2];
    assert_eq!(<[u32; 3]>::deserialize(&test_arr.serialize()).unwrap().1, test_arr);
}

#[test]
fn group_counter_stops_before_limit() {
    let mut registry = IdRegistry::new();
    let group = String::from("crowded");
    for expected in 0..255u64 {
        assert_eq!(registry.group_count(&group) as u64, expected);
        let id = registry.assign(&group) as u64;
        assert_eq!(id, expected);
    }
    // all 255 ids are out; a caller must check the count before registering
    assert_eq!(registry.group_count(&group), 255);
}
