use ecs_wire::wire::{DecodeError, Deserialize, Serialize, Wire};

// Each composite type carries a hand-written codec that follows the wire
// rules: fields in declared order, and for sum types a one-byte tag (the
// zero-based variant index) before the active variant's fields.

#[derive(Debug, PartialEq)]
struct EmptyStruct {}

impl Wire for EmptyStruct {
    type Model = ();
}

impl Serialize for EmptyStruct {
    fn serialize(&self) -> Vec<u8> {
        Vec::new()
    }
}

impl Deserialize for EmptyStruct {
    fn deserialize(_data: &[u8]) -> Result<(usize, Self), DecodeError> {
        Ok((0, EmptyStruct {}))
    }
}

#[derive(Debug, PartialEq)]
struct OneFieldStruct {
    x: u32,
}

impl Wire for OneFieldStruct {
    type Model = ();
}

impl Serialize for OneFieldStruct {
    fn serialize(&self) -> Vec<u8> {
        self.x.serialize()
    }
}

impl Deserialize for OneFieldStruct {
    fn deserialize(data: &[u8]) -> Result<(usize, Self), DecodeError> {
        let (n, x) = u32::deserialize(data)?;
        Ok((n, OneFieldStruct { x }))
    }
}

#[derive(Debug, PartialEq)]
struct TwoSameStruct {
    x: u32,
    y: u32,
}

impl Wire for TwoSameStruct {
    type Model = ();
}

impl Serialize for TwoSameStruct {
    fn serialize(&self) -> Vec<u8> {
        let mut result = self.x.serialize();
        result.append(&mut self.y.serialize());
        result
    }
}

impl Deserialize for TwoSameStruct {
    fn deserialize(data: &[u8]) -> Result<(usize, Self), DecodeError> {
        let (n1, x) = u32::deserialize(data)?;
        let (n2, y) = u32::deserialize(&data[n1..])?;
        Ok((n1 + n2, TwoSameStruct { x, y }))
    }
}

#[derive(Debug, PartialEq)]
struct TwoDiffStruct {
    x: u8,
    y: u32,
}

impl Wire for TwoDiffStruct {
    type Model = ();
}

impl Serialize for TwoDiffStruct {
    fn serialize(&self) -> Vec<u8> {
        let mut result = self.x.serialize();
        result.append(&mut self.y.serialize());
        result
    }
}

impl Deserialize for TwoDiffStruct {
    fn deserialize(data: &[u8]) -> Result<(usize, Self), DecodeError> {
        let (n1, x) = u8::deserialize(data)?;
        let (n2, y) = u32::deserialize(&data[n1..])?;
        Ok((n1 + n2, TwoDiffStruct { x, y }))
    }
}

#[derive(Debug, PartialEq)]
struct DynSizedStruct {
    x: u8,
    y: Vec<usize>,
    z: String,
}

impl Wire for DynSizedStruct {
    type Model = ();
}

impl Serialize for DynSizedStruct {
    fn serialize(&self) -> Vec<u8> {
        let mut result = self.x.serialize();
        result.append(&mut self.y.serialize());
        result.append(&mut self.z.serialize());
        result
    }
}

impl Deserialize for DynSizedStruct {
    fn deserialize(data: &[u8]) -> Result<(usize, Self), DecodeError> {
        let (n1, x) = u8::deserialize(data)?;
        let (n2, y) = <Vec<usize>>::deserialize(&data[n1..])?;
        let (n3, z) = String::deserialize(&data[n1 + n2..])?;
        Ok((n1 + n2 + n3, DynSizedStruct { x, y, z }))
    }
}

#[derive(Debug, PartialEq)]
struct PairTupleStruct(u32, String);

impl Wire for PairTupleStruct {
    type Model = ();
}

impl Serialize for PairTupleStruct {
    fn serialize(&self) -> Vec<u8> {
        let mut result = self.0.serialize();
        result.append(&mut self.1.serialize());
        result
    }
}

impl Deserialize for PairTupleStruct {
    fn deserialize(data: &[u8]) -> Result<(usize, Self), DecodeError> {
        let (n1, a) = u32::deserialize(data)?;
        let (n2, b) = String::deserialize(&data[n1..])?;
        Ok((n1 + n2, PairTupleStruct(a, b)))
    }
}

#[derive(Debug, PartialEq)]
enum DirEnum {
    Up,
    Down,
    Left,
    Right,
}

impl DirEnum {
    fn enum_tag(&self) -> u8 {
        match *self {
            DirEnum::Up => 0,
            DirEnum::Down => 1,
            DirEnum::Left => 2,
            DirEnum::Right => 3,
        }
    }
}

impl Wire for DirEnum {
    type Model = ();
}

impl Serialize for DirEnum {
    fn serialize(&self) -> Vec<u8> {
        self.enum_tag().serialize()
    }
}

impl Deserialize for DirEnum {
    fn deserialize(data: &[u8]) -> Result<(usize, Self), DecodeError> {
        let (n, tag) = u8::deserialize(data)?;
        match tag {
            0 => Ok((n, DirEnum::Up)),
            1 => Ok((n, DirEnum::Down)),
            2 => Ok((n, DirEnum::Left)),
            3 => Ok((n, DirEnum::Right)),
            _ => Err(DecodeError::BadDiscriminant { offset: 0, value: tag as u64 }),
        }
    }
}

#[derive(Debug, PartialEq)]
enum FieldsEnum {
    A { x: u32, y: u32 },
    B { s: String },
}

impl Wire for FieldsEnum {
    type Model = ();
}

impl Serialize for FieldsEnum {
    fn serialize(&self) -> Vec<u8> {
        match self {
            FieldsEnum::A { x, y } => {
                let mut result = 0u8.serialize();
                result.append(&mut x.serialize());
                result.append(&mut y.serialize());
                result
            }
            FieldsEnum::B { s } => {
                let mut result = 1u8.serialize();
                result.append(&mut s.serialize());
                result
            }
        }
    }
}

impl Deserialize for FieldsEnum {
    fn deserialize(data: &[u8]) -> Result<(usize, Self), DecodeError> {
        let (n, tag) = u8::deserialize(data)?;
        match tag {
            0 => {
                let (n1, x) = u32::deserialize(&data[n..])?;
                let (n2, y) = u32::deserialize(&data[n + n1..])?;
                Ok((n + n1 + n2, FieldsEnum::A { x, y }))
            }
            1 => {
                let (n1, s) = String::deserialize(&data[n..])?;
                Ok((n + n1, FieldsEnum::B { s }))
            }
            _ => Err(DecodeError::BadDiscriminant { offset: 0, value: tag as u64 }),
        }
    }
}

#[derive(Debug, PartialEq)]
enum SingleEnum {
    A(u32),
}

impl Wire for SingleEnum {
    type Model = ();
}

impl Serialize for SingleEnum {
    fn serialize(&self) -> Vec<u8> {
        match self {
            SingleEnum::A(v) => {
                let mut result = 0u8.serialize();
                result.append(&mut v.serialize());
                result
            }
        }
    }
}

impl Deserialize for SingleEnum {
    fn deserialize(data: &[u8]) -> Result<(usize, Self), DecodeError> {
        let (n, tag) = u8::deserialize(data)?;
        match tag {
            0 => {
                let (n1, v) = u32::deserialize(&data[n..])?;
                Ok((n + n1, SingleEnum::A(v)))
            }
            _ => Err(DecodeError::BadDiscriminant { offset: 0, value: tag as u64 }),
        }
    }
}

#[derive(Debug, PartialEq)]
struct WrappedStruct {
    x: u32,
}

impl Wire for WrappedStruct {
    type Model = ();
}

impl Serialize for WrappedStruct {
    fn serialize(&self) -> Vec<u8> {
        self.x.serialize()
    }
}

impl Deserialize for WrappedStruct {
    fn deserialize(data: &[u8]) -> Result<(usize, Self), DecodeError> {
        let (n, x) = u32::deserialize(data)?;
        Ok((n, WrappedStruct { x }))
    }
}

#[derive(Debug, PartialEq)]
enum WrapEnum {
    A(WrappedStruct),
    B(WrappedStruct),
}

impl Wire for WrapEnum {
    type Model = ();
}

impl Serialize for WrapEnum {
    fn serialize(&self) -> Vec<u8> {
        match self {
            WrapEnum::A(v) => {
                let mut result = 0u8.serialize();
                result.append(&mut v.serialize());
                result
            }
            WrapEnum::B(v) => {
                let mut result = 1u8.serialize();
                result.append(&mut v.serialize());
                result
            }
        }
    }
}

impl Deserialize for WrapEnum {
    fn deserialize(data: &[u8]) -> Result<(usize, Self), DecodeError> {
        let (n, tag) = u8::deserialize(data)?;
        match tag {
            0 => {
                let (n1, v) = WrappedStruct::deserialize(&data[n..])?;
                Ok((n + n1, WrapEnum::A(v)))
            }
            1 => {
                let (n1, v) = WrappedStruct::deserialize(&data[n..])?;
                Ok((n + n1, WrapEnum::B(v)))
            }
            _ => Err(DecodeError::BadDiscriminant { offset: 0, value: tag as u64 }),
        }
    }
}

#[derive(Debug, PartialEq)]
enum TaggedEnum {
    A(u32),
    B(u32),
}

impl TaggedEnum {
    fn enum_tag(&self) -> u8 {
        match *self {
            TaggedEnum::A(..) => 0,
            TaggedEnum::B(..) => 1,
        }
    }
}

#[derive(Debug, PartialEq)]
enum TriEnum {
    A(u32),
    B(u32),
    C(u32),
}

impl TriEnum {
    fn num_variants() -> usize {
        3
    }
}

#[test]
fn serde_uint() {
    let test_val = 69u32;
    assert_eq!(u32::deserialize(&test_val.serialize()).unwrap().1, test_val);
}

#[test]
fn serde_float() {
    // floating point travels as its IEEE-754 bit pattern in the same-width
    // unsigned integer's format
    let test_val: f32 = 69.420;
    let encoded = test_val.to_bits().serialize();
    let decoded = f32::from_bits(u32::deserialize(&encoded).unwrap().1);
    assert_eq!(decoded, test_val);
}

#[test]
fn serde_int() {
    let test_cases = [69i32, i32::MIN, i32::MAX];
    for case in test_cases.iter() {
        assert_eq!(i32::deserialize(&case.serialize()).unwrap().1, *case);
    }
}

#[test]
fn serde_array() {
    let test_arr = [0u32, 1, 2];
    assert_eq!(<[u32; 3]>::deserialize(&test_arr.serialize()).unwrap().1, test_arr);
}

#[test]
fn serde_empty_struct() {
    let test_struct = EmptyStruct {};
    assert_eq!(
        EmptyStruct::deserialize(&test_struct.serialize()).unwrap().1,
        test_struct
    );
}

#[test]
fn serde_struct_with_primitive() {
    let test_struct = OneFieldStruct { x: 69 };
    assert_eq!(
        OneFieldStruct::deserialize(&test_struct.serialize()).unwrap().1,
        test_struct
    );
}

#[test]
fn serde_struct_two_same_primitive() {
    let test_struct = TwoSameStruct { x: 69, y: 420 };
    assert_eq!(
        TwoSameStruct::deserialize(&test_struct.serialize()).unwrap().1,
        test_struct
    );
}

#[test]
fn serde_struct_two_diff_primitive() {
    let test_struct = TwoDiffStruct { x: 69, y: 420 };
    assert_eq!(
        TwoDiffStruct::deserialize(&test_struct.serialize()).unwrap().1,
        test_struct
    );
}

#[test]
fn serde_string() {
    let test_val = String::from("farts");
    assert_eq!(String::deserialize(&test_val.serialize()).unwrap().1, test_val);
}

#[test]
fn serde_vec() {
    let test_val = vec![0i32, 1, 2, 3, 4, 5];
    assert_eq!(<Vec<i32>>::deserialize(&test_val.serialize()).unwrap().1, test_val);
}

#[test]
fn serde_dyn_sized_struct() {
    let test_struct = DynSizedStruct {
        x: 69,
        y: vec![420],
        z: String::from("farts"),
    };
    assert_eq!(
        DynSizedStruct::deserialize(&test_struct.serialize()).unwrap().1,
        test_struct
    );
}

#[test]
fn serde_tuple_struct() {
    let test_struct = PairTupleStruct(0, String::from("ayy"));
    assert_eq!(
        PairTupleStruct::deserialize(&test_struct.serialize()).unwrap().1,
        test_struct
    );
}

#[test]
fn serde_enum_no_fields() {
    let test_enum = DirEnum::Up;
    assert_eq!(DirEnum::deserialize(&test_enum.serialize()).unwrap().1, test_enum);
}

#[test]
fn serde_enum_with_fields() {
    let test_enum = FieldsEnum::B {
        s: String::from("ayy lmao"),
    };
    assert_eq!(FieldsEnum::deserialize(&test_enum.serialize()).unwrap().1, test_enum);
}

#[test]
fn serde_tuple_enum_variant() {
    let test_enum = SingleEnum::A(69);
    assert_eq!(SingleEnum::deserialize(&test_enum.serialize()).unwrap().1, test_enum);
}

#[test]
fn serde_tuple_enum_variant_to_struct() {
    let test_enum = WrapEnum::B(WrappedStruct { x: 1337 });
    assert_eq!(WrapEnum::deserialize(&test_enum.serialize()).unwrap().1, test_enum);
}

#[test]
fn enum_tag() {
    assert_eq!(TaggedEnum::A(66).enum_tag(), 0);
    assert_eq!(TaggedEnum::B(66).enum_tag(), 1);
}

#[test]
fn num_variants() {
    assert_eq!(TriEnum::num_variants(), 3);
}
