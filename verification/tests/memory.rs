use std::cmp::Ordering;

use ferrowl::memory::{Kind, Range, Slice, Value, ValueRange};

#[test]
fn ut_range_new() {
    let range = Range::new(123, 45);
    assert_eq!(range.start, 123);
    assert_eq!(range.end, 168);

    let range = Range::new(321, 45);
    assert_eq!(range.start, 321);
    assert_eq!(range.end, 366);
}

#[test]
fn ut_range_length() {
    let range = Range::new(123, 45);
    assert_eq!(range.length(), 45);

    let range = Range::new(321, 54);
    assert_eq!(range.length(), 54);
}

#[test]
fn ut_range_cmp() {
    let range0 = Range::new(100, 100);

    let range1 = Range::new(0, 50);
    let range2 = Range::new(200, 50);
    let range3 = Range::new(50, 100);
    let range4 = Range::new(125, 50);
    let range5 = Range::new(100, 50);
    let range6 = Range::new(150, 50);
    let range7 = Range::new(100, 100);

    assert_eq!(range0.cmp(&range1), Ordering::Greater);
    assert_eq!(range1.cmp(&range0), Ordering::Less);

    assert_eq!(range0.cmp(&range2), Ordering::Less);
    assert_eq!(range2.cmp(&range0), Ordering::Greater);

    assert_eq!(range0.cmp(&range3), Ordering::Greater);
    assert_eq!(range3.cmp(&range0), Ordering::Less);

    assert_eq!(range0.cmp(&range4), Ordering::Less);
    assert_eq!(range4.cmp(&range0), Ordering::Greater);

    assert_eq!(range0.cmp(&range5), Ordering::Greater);
    assert_eq!(range5.cmp(&range0), Ordering::Less);

    assert_eq!(range0.cmp(&range6), Ordering::Less);
    assert_eq!(range6.cmp(&range0), Ordering::Greater);

    assert_eq!(range0.cmp(&range7), Ordering::Equal);
}

#[test]
fn ut_range_partial_cmp() {
    let range0 = Range::new(100, 100);

    let range1 = Range::new(0, 50);
    let range2 = Range::new(200, 50);
    let range3 = Range::new(50, 100);
    let range4 = Range::new(125, 50);
    let range5 = Range::new(100, 50);
    let range6 = Range::new(150, 50);
    let range7 = Range::new(100, 100);

    assert_eq!(range0.partial_cmp(&range1), Some(Ordering::Greater));
    assert_eq!(range1.partial_cmp(&range0), Some(Ordering::Less));

    assert_eq!(range0.partial_cmp(&range2), Some(Ordering::Less));
    assert_eq!(range2.partial_cmp(&range0), Some(Ordering::Greater));

    assert_eq!(range0.partial_cmp(&range3), Some(Ordering::Greater));
    assert_eq!(range3.partial_cmp(&range0), Some(Ordering::Less));

    assert_eq!(range0.partial_cmp(&range4), Some(Ordering::Less));
    assert_eq!(range4.partial_cmp(&range0), Some(Ordering::Greater));

    assert_eq!(range0.partial_cmp(&range5), Some(Ordering::Greater));
    assert_eq!(range5.partial_cmp(&range0), Some(Ordering::Less));

    assert_eq!(range0.partial_cmp(&range6), Some(Ordering::Less));
    assert_eq!(range6.partial_cmp(&range0), Some(Ordering::Greater));

    assert_eq!(range0.partial_cmp(&range7), Some(Ordering::Equal));
}

#[test]
fn ut_value_default() {
    assert_eq!(Value::default(&Kind::Read), Value::Read(0));
    assert_eq!(Value::default(&Kind::Write), Value::Write(0));
    assert_eq!(Value::default(&Kind::Combined), Value::Combined(0));
    assert_eq!(Value::default(&Kind::Separated), Value::Separated((0, 0)));
}

#[test]
fn ut_value_from_u16() {
    assert_eq!(Value::from_u16(&Kind::Read, 1), Value::Read(1));
    assert_eq!(Value::from_u16(&Kind::Write, 2), Value::Write(2));
    assert_eq!(Value::from_u16(&Kind::Combined, 3), Value::Combined(3));
    assert_eq!(
        Value::from_u16(&Kind::Separated, 4),
        Value::Separated((4, 4))
    );
    assert_ne!(
        Value::from_u16(&Kind::Separated, 4),
        Value::Separated((4, 5))
    );
}

#[test]
fn ut_value_range_new() {
    let values: Vec<u16> = (1..21).collect();
    let range = ValueRange::new(100, &values);

    assert_eq!(range.get_range().start, 100);
    assert_eq!(range.get_range().end, 120);
}

#[test]
fn ut_slice_from_range() {
    let slice = Slice::from_range(&Kind::Read, Range::new(123, 45));
    assert_eq!(slice.buffer.len(), 45);
    assert_eq!(slice.range.start, 123);
    assert_eq!(slice.range.end, 168);
    for value in slice.buffer.iter() {
        assert_eq!(*value, Value::Read(0));
    }

    let slice = Slice::from_range(&Kind::Write, Range::new(123, 45));
    assert_eq!(slice.buffer.len(), 45);
    assert_eq!(slice.range.start, 123);
    assert_eq!(slice.range.end, 168);
    for value in slice.buffer.iter() {
        assert_eq!(*value, Value::Write(0));
    }

    let slice = Slice::from_range(&Kind::Combined, Range::new(123, 45));
    assert_eq!(slice.buffer.len(), 45);
    assert_eq!(slice.range.start, 123);
    assert_eq!(slice.range.end, 168);
    for value in slice.buffer.iter() {
        assert_eq!(*value, Value::Combined(0));
    }

    let slice = Slice::from_range(&Kind::Separated, Range::new(123, 45));
    assert_eq!(slice.buffer.len(), 45);
    assert_eq!(slice.range.start, 123);
    assert_eq!(slice.range.end, 168);
    for value in slice.buffer.iter() {
        assert_eq!(*value, Value::Separated((0, 0)));
    }
}

#[test]
fn ut_slice_from_value_range() {
    let values: Vec<u16> = (1..46).collect();
    let slice = Slice::from_value_range(&Kind::Read, ValueRange::new(123, &values));
    assert_eq!(slice.buffer.len(), 45);
    assert_eq!(slice.range.start, 123);
    assert_eq!(slice.range.end, 168);
    for (v1, v2) in slice.buffer.iter().zip(values) {
        assert_eq!(*v1, Value::Read(v2));
    }

    let values: Vec<u16> = (1..46).collect();
    let slice = Slice::from_value_range(&Kind::Write, ValueRange::new(123, &values));
    assert_eq!(slice.buffer.len(), 45);
    assert_eq!(slice.range.start, 123);
    assert_eq!(slice.range.end, 168);
    for (v1, v2) in slice.buffer.iter().zip(values) {
        assert_eq!(*v1, Value::Write(v2));
    }

    let values: Vec<u16> = (1..46).collect();
    let slice = Slice::from_value_range(&Kind::Combined, ValueRange::new(123, &values));
    assert_eq!(slice.buffer.len(), 45);
    assert_eq!(slice.range.start, 123);
    assert_eq!(slice.range.end, 168);
    for (v1, v2) in slice.buffer.iter().zip(values) {
        assert_eq!(*v1, Value::Combined(v2));
    }

    let values: Vec<u16> = (1..46).collect();
    let slice = Slice::from_value_range(&Kind::Separated, ValueRange::new(123, &values));
    assert_eq!(slice.buffer.len(), 45);
    assert_eq!(slice.range.start, 123);
    assert_eq!(slice.range.end, 168);
    for (v1, v2) in slice.buffer.iter().zip(values) {
        assert_eq!(*v1, Value::Separated((v2, v2)));
    }
}

#[test]
fn ut_slice_extend() {
    let mut slice = Slice::from_range(&Kind::Read, Range::new(123, 45));
    assert_eq!(slice.buffer.len(), 45);
    assert_eq!(slice.range.start, 123);
    assert_eq!(slice.range.end, 168);
    assert!(slice.extend(&Kind::Write, &Range::new(168, 32)));
    assert_eq!(slice.buffer.len(), 77);
    assert_eq!(slice.range.start, 123);
    assert_eq!(slice.range.end, 200);

    for (idx, value) in slice.buffer.iter().enumerate() {
        if idx < 45 {
            assert_eq!(*value, Value::Read(0));
        } else {
            assert_eq!(*value, Value::Write(0));
        }
    }

    assert!(!slice.extend(&Kind::Separated, &Range::new(240, 10)));
    assert_eq!(slice.buffer.len(), 77);
    assert_eq!(slice.range.start, 123);
    assert_eq!(slice.range.end, 200);

    assert!(!slice.extend(&Kind::Separated, &Range::new(0, 10)));
    assert_eq!(slice.buffer.len(), 77);
    assert_eq!(slice.range.start, 123);
    assert_eq!(slice.range.end, 200);

    assert!(slice.extend(&Kind::Separated, &Range::new(200, 50)));
    assert_eq!(slice.buffer.len(), 127);
    assert_eq!(slice.range.start, 123);
    assert_eq!(slice.range.end, 250);

    assert!(slice.extend(&Kind::Combined, &Range::new(250, 50)));
    assert_eq!(slice.buffer.len(), 177);
    assert_eq!(slice.range.start, 123);
    assert_eq!(slice.range.end, 300);

    assert!(slice.extend(&Kind::Combined, &Range::new(0, 123)));
    assert_eq!(slice.buffer.len(), 300);
    assert_eq!(slice.range.start, 0);
    assert_eq!(slice.range.end, 300);

    for (idx, value) in slice.buffer.iter().enumerate() {
        if idx < 123 {
            assert_eq!(*value, Value::Combined(0));
        } else if idx < 168 {
            assert_eq!(*value, Value::Read(0));
        } else if idx < 200 {
            assert_eq!(*value, Value::Write(0));
        } else if idx < 250 {
            assert_eq!(*value, Value::Separated((0, 0)));
        } else if idx < 300 {
            assert_eq!(*value, Value::Combined(0));
        } else {
            unreachable!();
        }
    }
}

#[test]
fn ut_slice_writable() {
    let mut slice = Slice::from_range(&Kind::Read, Range::new(123, 45));
    assert!(slice.extend(&Kind::Write, &Range::new(168, 32)));
    assert!(slice.extend(&Kind::Separated, &Range::new(200, 50)));
    assert!(slice.extend(&Kind::Combined, &Range::new(250, 50)));

    assert!(!slice.writable(&Range::new(130, 10)));
    assert!(slice.writable(&Range::new(175, 10)));
    assert!(slice.writable(&Range::new(210, 10)));
    assert!(slice.writable(&Range::new(270, 10)));
}

#[test]
fn ut_slice_write() {
    let mut slice = Slice::from_range(&Kind::Read, Range::new(123, 45));
    assert!(slice.extend(&Kind::Write, &Range::new(168, 32)));
    assert!(slice.extend(&Kind::Separated, &Range::new(200, 50)));
    assert!(slice.extend(&Kind::Combined, &Range::new(250, 50)));

    let values: Vec<u16> = (1..21).collect();
    assert!(slice.write(&Range::new(175, 20), &values));
    for (v1, v2) in slice.buffer[175 - slice.range.start..]
        .iter()
        .take(20)
        .zip(values.iter())
    {
        match v1 {
            Value::Write(w) => assert_eq!(w, v2),
            Value::Separated((_, w)) => assert_eq!(w, v2),
            Value::Read(_) => unreachable!(),
            Value::Combined(rw) => assert_eq!(rw, v2),
        };
    }

    let values: Vec<u16> = (1..21).map(|c| 2 * c).collect();
    assert!(slice.write(&Range::new(190, 20), &values));
    for (v1, v2) in slice.buffer[190 - slice.range.start..]
        .iter()
        .take(20)
        .zip(values.iter())
    {
        match v1 {
            Value::Write(w) => assert_eq!(w, v2),
            Value::Separated((_, w)) => assert_eq!(w, v2),
            Value::Read(_) => unreachable!(),
            Value::Combined(rw) => assert_eq!(rw, v2),
        };
    }

    let values: Vec<u16> = (1..21).map(|c| 3 * c).collect();
    assert!(!slice.write(&Range::new(0, 20), &values));

    let values: Vec<u16> = (1..21).map(|c| 4 * c).collect();
    assert!(!slice.write(&Range::new(160, 20), &values));

    let values: Vec<u16> = (1..21).map(|c| 5 * c).collect();
    assert!(!slice.write(&Range::new(500, 20), &values));
}

#[test]
fn ut_slice_readable() {
    let mut slice = Slice::from_range(&Kind::Read, Range::new(123, 45));
    assert!(slice.extend(&Kind::Write, &Range::new(168, 32)));
    assert!(slice.extend(&Kind::Separated, &Range::new(200, 50)));
    assert!(slice.extend(&Kind::Combined, &Range::new(250, 50)));

    assert!(slice.readable(&Range::new(130, 10)));
    assert!(!slice.readable(&Range::new(175, 10)));
    assert!(slice.readable(&Range::new(210, 10)));
    assert!(slice.readable(&Range::new(270, 10)));
}

#[test]
fn ut_slice_read() {
    let mut slice = Slice::from_range(&Kind::Read, Range::new(123, 45));
    assert!(slice.extend(&Kind::Write, &Range::new(168, 32)));
    assert!(slice.extend(&Kind::Separated, &Range::new(200, 50)));
    assert!(slice.extend(&Kind::Combined, &Range::new(250, 50)));

    let values: Vec<u16> = (1..21).collect();
    for (v1, v2) in slice.buffer[130 - slice.range.start..]
        .iter_mut()
        .zip(values)
    {
        match v1 {
            Value::Write(_) => unreachable!(),
            Value::Separated((r, _)) => *r = v2,
            Value::Read(r) => *r = v2,
            Value::Combined(rw) => *rw = v2,
        };
    }

    let result = slice.read(&Range::new(130, 20));
    assert!(result.is_some());
    let result = result.unwrap();
    assert_eq!(result.len(), 20);

    for (v1, v2) in slice.buffer[130 - slice.range.start..]
        .iter()
        .take(20)
        .zip(result.iter())
    {
        match v1 {
            Value::Write(_) => unreachable!(),
            Value::Separated((r, _)) => assert_eq!(r, v2),
            Value::Read(r) => assert_eq!(r, v2),
            Value::Combined(rw) => assert_eq!(rw, v2),
        };
    }

    let values: Vec<u16> = (1..21).map(|c| 2 * c).collect();
    for (v1, v2) in slice.buffer[240 - slice.range.start..]
        .iter_mut()
        .zip(values)
    {
        match v1 {
            Value::Write(_) => unreachable!(),
            Value::Separated((r, _)) => *r = v2,
            Value::Read(r) => *r = v2,
            Value::Combined(rw) => *rw = v2,
        };
    }

    let result = slice.read(&Range::new(240, 20));
    assert!(result.is_some());
    let result = result.unwrap();
    assert_eq!(result.len(), 20);

    for (v1, v2) in slice.buffer[240 - slice.range.start..]
        .iter()
        .take(20)
        .zip(result.iter())
    {
        match v1 {
            Value::Write(_) => unreachable!(),
            Value::Separated((r, _)) => assert_eq!(r, v2),
            Value::Read(r) => assert_eq!(r, v2),
            Value::Combined(rw) => assert_eq!(rw, v2),
        };
    }

    assert!(slice.read(&Range::new(0, 20)).is_none());
    assert!(slice.read(&Range::new(190, 20)).is_none());
    assert!(slice.read(&Range::new(500, 20)).is_none());
}
