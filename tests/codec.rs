use wrpc_transport::decode::{
    decode, decode_future_payload, decode_string, receive_at_least, receive_discriminant,
    receive_leb128_signed, receive_leb128_unsigned, receive_list_header, receive_stream_item,
    receive_stream_frames, DecodeError, FramesEnd,
};
use wrpc_transport::invoke::{InvocationAction, InvocationEvent, InvocationRace, Resolution};
use wrpc_transport::leb::{read_signed, read_unsigned, LebError};
use wrpc_transport::plan::{plan_subscriptions, subscribed_subjects};
use wrpc_transport::subject::{Subject, SubjectPath};
use wrpc_transport::subscription::{AsyncSubscription, SubscriptionError, SubscriptionKind};
use wrpc_transport::transmit::{
    async_targets, encode_future_payload, encode_stream_item, stream_item_subject, AsyncLeaf,
};
use wrpc_transport::types::{type_is_wf, Resource, Type};
use wrpc_transport::value::{
    duration_from_nanos, encode, encode_discriminant, encode_duration, encode_sized_iter, DynamicTuple,
    FutureValue, StreamValue, Value,
};

type Plain = Value<()>;

fn enc(v: Plain) -> Vec<u8> {
    let mut buf = Vec::new();
    let a = encode(v, &mut buf);
    assert!(a.is_none());
    buf
}

fn path(p: &SubjectPath) -> Vec<Option<u32>> {
    p.segments.clone()
}

#[test]
fn scalars_tuple_encoding() {
    let v: Plain = Value::Tuple(vec![
        Value::U8(7),
        Value::S32(-3),
        Value::String("hi".to_string()),
    ]);
    assert_eq!(enc(v), vec![0x07, 0x7D, 0x02, 0x68, 0x69]);
}

#[test]
fn scalars_tuple_round_trip() {
    let ty = Type::Tuple(vec![Type::U8, Type::S32, Type::String]);
    let bytes = vec![0x07, 0x7D, 0x02, 0x68, 0x69];
    let (v, end) = decode::<()>(&ty, &bytes, 0, None).unwrap();
    assert_eq!(end, 5);
    match v {
        Value::Tuple(vs) => {
            assert_eq!(vs.len(), 3);
            assert!(matches!(vs[0], Value::U8(7)));
            assert!(matches!(vs[1], Value::S32(-3)));
            assert!(matches!(&vs[2], Value::String(s) if s == "hi"));
        }
        _ => panic!("not a tuple"),
    }
}

#[test]
fn option_none_and_some() {
    assert_eq!(enc(Value::Option(None)), vec![0x00]);
    assert_eq!(
        enc(Value::Option(Some(Box::new(Value::U32(300))))),
        vec![0x01, 0xAC, 0x02]
    );
    let ty = Type::Option(Box::new(Type::U32));
    let (v, end) = decode::<()>(&ty, &[0x01, 0xAC, 0x02], 0, None).unwrap();
    assert_eq!(end, 3);
    match v {
        Value::Option(Some(b)) => assert!(matches!(*b, Value::U32(300))),
        _ => panic!("not some"),
    }
    let (v, end) = decode::<()>(&ty, &[0x00], 0, None).unwrap();
    assert_eq!(end, 1);
    assert!(matches!(v, Value::Option(None)));
}

#[test]
fn pending_future_resolves_from_child_subject() {
    let ty = Type::Future(Some(Box::new(Type::U32)));
    let root = SubjectPath::root();
    let plan = plan_subscriptions(&root, &ty).unwrap();
    let (v, end) = decode(&ty, &[0x00], 0, Some(plan)).unwrap();
    assert_eq!(end, 1);
    let (subscriber, nested) = match v {
        Value::Future(FutureValue::Pending(node)) => node.try_unwrap_future().unwrap(),
        _ => panic!("not a pending future"),
    };
    assert_eq!(path(&subscriber), Vec::<Option<u32>>::new());
    assert!(nested.is_none());
    let payload = [42u8];
    let (x, used) = decode_future_payload::<SubjectPath>(&Some(Box::new(Type::U32)), &payload, None)
        .unwrap();
    assert_eq!(used, 1);
    assert!(matches!(x, Some(Value::U32(42))));
}

#[test]
fn stream_of_three_bytes() {
    let t = Some(Box::new(Type::U8));
    let frames: Vec<Vec<u8>> = vec![vec![1, 7], vec![1, 11], vec![1, 13], vec![0]];
    let mut got = Vec::new();
    for f in &frames {
        let (item, used) = receive_stream_item::<()>(&t, f, 0).unwrap();
        assert_eq!(used, f.len());
        match item {
            None => break,
            Some(Some(Value::U8(x))) => got.push(x),
            _ => panic!("unexpected item"),
        }
    }
    assert_eq!(got, vec![7, 11, 13]);
}

#[test]
fn stream_items_frame_as_sent() {
    let (b, a) = encode_stream_item::<()>(Some(Some(Value::U8(7))));
    assert_eq!(b, vec![1, 7]);
    assert!(a.is_none());
    let (b, _) = encode_stream_item::<()>(Some(None));
    assert_eq!(b, vec![1]);
    let (b, _) = encode_stream_item::<()>(None);
    assert_eq!(b, vec![0]);
    let s = stream_item_subject(&SubjectPath::root(), 2);
    assert_eq!(path(&s), vec![Some(2), Some(0)]);
}

#[test]
fn error_string_decodes() {
    let bytes = vec![3, b'b', b'a', b'd'];
    let (s, end) = decode_string(&bytes, 0).unwrap();
    assert_eq!(s, "bad");
    assert_eq!(end, 4);
}

#[test]
fn record_with_async_field() {
    let ty = Type::Record(vec![Type::U32, Type::Future(Some(Box::new(Type::U32)))]);
    let root = SubjectPath::root();
    let plan = plan_subscriptions(&root, &ty).unwrap();
    let (v, end) = decode(&ty, &[0x05, 0x00], 0, Some(plan)).unwrap();
    assert_eq!(end, 2);
    let fields = match v {
        Value::Record(fs) => fs,
        _ => panic!("not a record"),
    };
    assert!(matches!(fields[0], Value::U32(5)));
    let mut fields = fields;
    let b = fields.pop().unwrap();
    let (subscriber, _) = match b {
        Value::Future(FutureValue::Pending(node)) => node.try_unwrap_future().unwrap(),
        _ => panic!("not pending"),
    };
    assert_eq!(path(&subscriber), vec![Some(1)]);
    let (x, _) =
        decode_future_payload::<SubjectPath>(&Some(Box::new(Type::U32)), &[0x09], None).unwrap();
    assert!(matches!(x, Some(Value::U32(9))));
}

#[test]
fn plan_is_absent_for_synchronous_types() {
    let root = SubjectPath::root();
    let ty = Type::Record(vec![Type::U8, Type::List(Box::new(Type::String))]);
    assert!(plan_subscriptions(&root, &ty).is_none());
}

#[test]
fn plan_of_result_and_option() {
    let root = SubjectPath::root();
    let ty = Type::Result {
        ok: None,
        err: Some(Box::new(Type::Option(Box::new(Type::Stream(None))))),
    };
    let plan = plan_subscriptions(&root, &ty).unwrap();
    let (ok, err) = plan.try_unwrap_result().unwrap();
    assert!(ok.is_none());
    let inner = err.unwrap().try_unwrap_option().unwrap();
    let (subscriber, nested) = inner.try_unwrap_stream().unwrap();
    assert_eq!(path(&subscriber), vec![Some(1), Some(1)]);
    assert!(nested.is_none());
}

#[test]
fn plan_of_list_uses_indeterminate_index() {
    let root = SubjectPath::root();
    let ty = Type::List(Box::new(Type::Future(None)));
    match plan_subscriptions(&root, &ty).unwrap() {
        AsyncSubscription::List(b) => match *b {
            AsyncSubscription::Future { subscriber, nested } => {
                assert_eq!(path(&subscriber), vec![None]);
                assert!(nested.is_none());
            }
            _ => panic!("not a future"),
        },
        _ => panic!("not a list"),
    }
}

#[test]
fn child_subjects_differ() {
    let root = SubjectPath::root();
    let a = root.child(Some(1)).child(Some(0));
    let b = root.child(Some(0)).child(Some(1));
    let c = root.child(None);
    assert_ne!(path(&a), path(&b));
    assert_ne!(path(&c), path(&root));
    assert_ne!(path(&root.child(Some(0))), path(&root.child(None)));
}

#[test]
fn async_targets_follow_positions() {
    let v: Value<u32> = Value::Tuple(vec![
        Value::U8(1),
        Value::Option(Some(Box::new(Value::Future(FutureValue::Pending(7))))),
        Value::Stream(StreamValue::Pending(9)),
    ]);
    let mut buf = Vec::new();
    let a = encode(v, &mut buf).unwrap();
    assert_eq!(buf, vec![1, 1, 0, 0]);
    let targets = async_targets(&SubjectPath::root(), a);
    assert_eq!(targets.len(), 2);
    assert_eq!(path(&targets[0].0), vec![Some(1), Some(1)]);
    assert!(matches!(targets[0].1, AsyncLeaf::Future(7)));
    assert_eq!(path(&targets[1].0), vec![Some(2)]);
    assert!(matches!(targets[1].1, AsyncLeaf::Stream(StreamValue::Pending(9))));
}

#[test]
fn ready_future_is_inline() {
    let v: Plain = Value::Future(FutureValue::Ready(Some(Box::new(Value::U32(42)))));
    assert_eq!(enc(v), vec![1, 42]);
    let (b, a) = encode_future_payload::<()>(Some(Value::U32(300)));
    assert_eq!(b, vec![0xAC, 0x02]);
    assert!(a.is_none());
    let (b, _) = encode_future_payload::<()>(None);
    assert!(b.is_empty());
}

#[test]
fn dynamic_tuple_encodes_as_tuple() {
    let t: DynamicTuple<Plain> = DynamicTuple(vec![Value::Bool(true), Value::U16(128)]);
    let mut buf = Vec::new();
    assert!(t.encode(&mut buf).is_none());
    assert_eq!(buf, vec![1, 0x80, 0x01]);
}

#[test]
fn leb128_values() {
    assert_eq!(read_unsigned(&[0xE5, 0x8E, 0x26], 0), Ok((624485, 3)));
    assert_eq!(read_signed(&[0xC0, 0xBB, 0x78], 0), Ok((-123456, 3)));
    assert_eq!(read_unsigned(&[0x80, 0x80], 0), Err(LebError::Incomplete));
    let too_wide = [0xFF, 0xFF, 0xFF, 0xFF, 0xFF, 0xFF, 0xFF, 0xFF, 0xFF, 0x02];
    assert_eq!(read_unsigned(&too_wide, 0), Err(LebError::Overflow));
    let max = [0xFF, 0xFF, 0xFF, 0xFF, 0xFF, 0xFF, 0xFF, 0xFF, 0xFF, 0x01];
    assert_eq!(read_unsigned(&max, 0), Ok((u64::MAX, 10)));
    let mut buf = Vec::new();
    let _ = encode::<()>(Value::S64(i64::MIN), &mut buf);
    assert_eq!(read_signed(&buf, 0), Ok((i64::MIN, buf.len())));
}

#[test]
fn integers_round_trip_at_their_limits() {
    let cases: Vec<(Type, Plain)> = vec![
        (Type::U16, Value::U16(u16::MAX)),
        (Type::U64, Value::U64(u64::MAX)),
        (Type::S16, Value::S16(i16::MIN)),
        (Type::S64, Value::S64(i64::MAX)),
        (Type::S8, Value::S8(-128)),
        (Type::Char, Value::Char('\u{10FFFF}')),
        (Type::Float32, Value::Float32(1.5f32.to_bits())),
        (Type::Float64, Value::Float64((-2.25f64).to_bits())),
    ];
    for (ty, v) in cases {
        let expected = format!("{:?}", v);
        let bytes = enc(v);
        let (back, end) = decode::<()>(&ty, &bytes, 0, None).unwrap();
        assert_eq!(end, bytes.len());
        assert_eq!(format!("{:?}", back), expected);
    }
}

#[test]
fn float_bits_are_little_endian() {
    assert_eq!(enc(Value::Float32(1.0f32.to_bits())), vec![0, 0, 0x80, 0x3F]);
    assert_eq!(
        enc(Value::Float64(1.0f64.to_bits())),
        vec![0, 0, 0, 0, 0, 0, 0xF0, 0x3F]
    );
}

#[test]
fn decode_errors() {
    assert_eq!(
        decode::<()>(&Type::Bool, &[2], 0, None).err(),
        Some(DecodeError::InvalidBool)
    );
    assert_eq!(
        decode::<()>(&Type::U16, &[0x80, 0x80, 0x04], 0, None).err(),
        Some(DecodeError::IntegerOverflow)
    );
    assert_eq!(
        decode::<()>(&Type::U32, &[0x80], 0, None).err(),
        Some(DecodeError::UnexpectedEnd)
    );
    assert_eq!(
        decode::<()>(&Type::Char, &[0x80, 0xB0, 0x03], 0, None).err(),
        Some(DecodeError::InvalidChar)
    );
    assert_eq!(
        decode::<()>(&Type::String, &[2, 0xC3, 0x28], 0, None).err(),
        Some(DecodeError::InvalidUtf8)
    );
    let opt = Type::Option(Box::new(Type::U8));
    assert_eq!(
        decode::<()>(&opt, &[2], 0, None).err(),
        Some(DecodeError::InvalidOption)
    );
    let res = Type::Result { ok: None, err: None };
    assert_eq!(
        decode::<()>(&res, &[5], 0, None).err(),
        Some(DecodeError::InvalidResult)
    );
    let var = Type::Variant(vec![None, Some(Type::U8)]);
    assert_eq!(
        decode::<()>(&var, &[2], 0, None).err(),
        Some(DecodeError::UnknownVariant)
    );
    let fut = Type::Future(None);
    assert_eq!(
        decode::<()>(&fut, &[0], 0, None).err(),
        Some(DecodeError::Subscription(SubscriptionError::Mismatch(
            SubscriptionKind::Future
        )))
    );
    let root = SubjectPath::root();
    let plan = plan_subscriptions(&root, &fut);
    assert_eq!(
        decode(&fut, &[7], 0, plan).err(),
        Some(DecodeError::InvalidFuture)
    );
    let st = Type::Stream(None);
    let plan = plan_subscriptions(&root, &st);
    assert_eq!(
        decode(&st, &[1, 5], 0, plan).err(),
        Some(DecodeError::InvalidStream)
    );
    assert_eq!(
        decode_future_payload::<()>(&None, &[1], None).err(),
        Some(DecodeError::InvalidFuture)
    );
}

#[test]
fn variants_and_results() {
    let var = Type::Variant(vec![None, Some(Type::String)]);
    let v: Plain = Value::Variant {
        discriminant: 1,
        nested: Some(Box::new(Value::String("x".to_string()))),
    };
    let bytes = enc(v);
    assert_eq!(bytes, vec![1, 1, b'x']);
    let (back, end) = decode::<()>(&var, &bytes, 0, None).unwrap();
    assert_eq!(end, 3);
    assert!(matches!(back, Value::Variant { discriminant: 1, nested: Some(_) }));
    let res = Type::Result {
        ok: Some(Box::new(Type::U8)),
        err: Some(Box::new(Type::String)),
    };
    let (back, _) = decode::<()>(&res, &[1, 0], 0, None).unwrap();
    assert!(matches!(&back, Value::Result(Err(Some(s))) if matches!(&**s, Value::String(t) if t.is_empty())));
}

#[test]
fn inline_streams_decode() {
    let root = SubjectPath::root();
    let ty = Type::Stream(Some(Box::new(Type::U8)));
    let plan = plan_subscriptions(&root, &ty);
    let (v, end) = decode(&ty, &[1, 5, 0], 0, plan).unwrap();
    assert_eq!(end, 3);
    match v {
        Value::Stream(StreamValue::Ready(items)) => {
            assert_eq!(items.len(), 1);
            assert!(matches!(items[0], Some(Value::U8(5))));
        }
        _ => panic!("not an inline stream"),
    }
    let plan = plan_subscriptions(&root, &ty);
    let (v, end) = decode(&ty, &[3, 1, 2, 3, 0], 0, plan).unwrap();
    assert_eq!(end, 5);
    match v {
        Value::Stream(StreamValue::Ready(items)) => assert_eq!(items.len(), 3),
        _ => panic!("not an inline stream"),
    }
    let input = Type::Resource(Resource::InputStream);
    let plan = plan_subscriptions(&root, &input);
    let (v, _) = decode(&input, &[2, 9, 8, 0], 0, plan).unwrap();
    match v {
        Value::Stream(StreamValue::Ready(items)) => {
            assert!(matches!(items[..], [Some(Value::U8(9)), Some(Value::U8(8))]))
        }
        _ => panic!("not an inline stream"),
    }
}

#[test]
fn list_with_async_elements_cannot_be_split_yet() {
    let root = SubjectPath::root();
    let ty = Type::List(Box::new(Type::Future(None)));
    let plan = plan_subscriptions(&root, &ty);
    assert_eq!(
        decode(&ty, &[0], 0, plan).err(),
        Some(DecodeError::Subscription(SubscriptionError::NotDemultiplexable))
    );
}

#[test]
fn plan_lists_every_subscribed_subject() {
    let root = SubjectPath::root();
    let ty = Type::Tuple(vec![
        Type::U8,
        Type::Future(Some(Box::new(Type::Stream(None)))),
        Type::Result {
            ok: Some(Box::new(Type::Stream(Some(Box::new(Type::U32))))),
            err: None,
        },
    ]);
    let plan = plan_subscriptions(&root, &ty).unwrap();
    let subjects: Vec<Vec<Option<u32>>> =
        subscribed_subjects(&plan).iter().map(path).collect();
    assert_eq!(
        subjects,
        vec![
            vec![Some(1)],
            vec![Some(1), Some(0)],
            vec![Some(2), Some(0)],
        ]
    );
}

#[test]
fn first_settlement_wins_result_then_error() {
    let mut race = InvocationRace::new();
    assert_eq!(
        race.on_event(InvocationEvent::ResultReceived),
        InvocationAction::DecodeResults
    );
    assert_eq!(
        race.on_event(InvocationEvent::ErrorReceived),
        InvocationAction::Ignore
    );
    assert_eq!(
        race.on_event(InvocationEvent::TransmissionFailed),
        InvocationAction::Ignore
    );
    assert_eq!(race.resolution, Some(Resolution::Results));
}

#[test]
fn first_settlement_wins_error_then_result() {
    let mut race = InvocationRace::new();
    assert_eq!(
        race.on_event(InvocationEvent::ErrorReceived),
        InvocationAction::DecodeError
    );
    assert_eq!(
        race.on_event(InvocationEvent::ResultReceived),
        InvocationAction::Ignore
    );
    assert_eq!(race.resolution, Some(Resolution::Error));
    let mut race = InvocationRace::new();
    assert_eq!(
        race.on_event(InvocationEvent::TransmissionFailed),
        InvocationAction::AwaitTransmission
    );
    assert_eq!(race.resolution, Some(Resolution::TransmissionFailure));
}

#[test]
fn sent_parts_land_on_planned_subjects() {
    let ty = Type::Record(vec![
        Type::U32,
        Type::Option(Box::new(Type::Future(Some(Box::new(Type::U32))))),
        Type::Result {
            ok: None,
            err: Some(Box::new(Type::Stream(None))),
        },
    ]);
    let v: Value<u8> = Value::Record(vec![
        Value::U32(1),
        Value::Option(Some(Box::new(Value::Future(FutureValue::Pending(1))))),
        Value::Result(Err(Some(Box::new(Value::Stream(StreamValue::Pending(2)))))),
    ]);
    let root = SubjectPath::root();
    let plan = plan_subscriptions(&root, &ty).unwrap();
    let planned: Vec<Vec<Option<u32>>> = subscribed_subjects(&plan).iter().map(path).collect();
    let mut buf = Vec::new();
    let a = encode(v, &mut buf).unwrap();
    assert_eq!(buf, vec![1, 1, 0, 1, 0]);
    let sent: Vec<Vec<Option<u32>>> = async_targets(&root, a).iter().map(|t| path(&t.0)).collect();
    assert_eq!(sent, vec![vec![Some(1), Some(1)], vec![Some(2), Some(1)]]);
    for s in &sent {
        assert!(planned.contains(s));
    }
}

#[test]
fn header_and_discriminant_readers() {
    assert_eq!(receive_list_header(&[0x80, 0x01], 0), Ok((128, 2)));
    assert_eq!(
        receive_list_header(&[0x80, 0x80, 0x80, 0x80, 0x10], 0),
        Err(DecodeError::IntegerOverflow)
    );
    assert_eq!(receive_discriminant(&[0x05], 0), Ok((5, 1)));
    assert_eq!(receive_discriminant(&[0x85], 0), Err(DecodeError::UnexpectedEnd));
    assert_eq!(receive_at_least(&[1, 2, 3], 1, 2), Ok(3));
    assert_eq!(receive_at_least(&[1, 2, 3], 2, 2), Err(DecodeError::UnexpectedEnd));
    assert_eq!(receive_leb128_unsigned(&[0xAC, 0x02], 0), Ok((300, 2)));
    assert_eq!(receive_leb128_signed(&[0x7F], 0), Ok((-1, 1)));
    let mut buf = Vec::new();
    encode_discriminant(&mut buf, 300);
    assert_eq!(buf, vec![0xAC, 0x02]);
}

#[test]
fn sized_iter_collects_parts_in_order() {
    let vs: Vec<Value<u8>> = vec![
        Value::Stream(StreamValue::Pending(4)),
        Value::Bool(false),
    ];
    let mut buf = Vec::new();
    let parts = encode_sized_iter(vs, &mut buf).unwrap();
    assert_eq!(buf, vec![0, 0]);
    assert_eq!(parts.len(), 2);
    assert!(parts[1].is_none());
    let none: Vec<Value<u8>> = vec![Value::U8(3)];
    let mut buf = Vec::new();
    assert!(encode_sized_iter(none, &mut buf).is_none());
    assert_eq!(buf, vec![3]);
}

#[test]
fn durations_travel_as_nanoseconds() {
    let mut buf = Vec::new();
    assert!(encode_duration(1, 5, &mut buf));
    assert_eq!(read_unsigned(&buf, 0), Ok((1_000_000_005, buf.len())));
    assert_eq!(duration_from_nanos(1_000_000_005), (1, 5));
    let mut buf = Vec::new();
    assert!(!encode_duration(u64::MAX / 1_000_000_000 + 1, 0, &mut buf));
    assert!(buf.is_empty());
    let d = std::time::Duration::from_millis(1500);
    let mut buf = Vec::new();
    assert!(encode_duration(d.as_secs(), d.subsec_nanos(), &mut buf));
    let (n, _) = read_unsigned(&buf, 0).unwrap();
    assert_eq!(n as u128, d.as_nanos());
}

#[test]
fn stream_frames_keep_publication_order() {
    let t = Some(Box::new(Type::U8));
    let bytes = [1, 7, 1, 11, 1, 13, 0];
    let (items, end, used) = receive_stream_frames::<()>(&t, &bytes, 0);
    assert_eq!(end, FramesEnd::Closed);
    assert_eq!(used, 7);
    let got: Vec<u8> = items
        .iter()
        .map(|i| match i {
            Some(Value::U8(x)) => *x,
            _ => panic!("unexpected item"),
        })
        .collect();
    assert_eq!(got, vec![7, 11, 13]);
    let (items, end, used) = receive_stream_frames::<()>(&t, &bytes[..3], 0);
    assert_eq!(items.len(), 1);
    assert_eq!(end, FramesEnd::NeedMore);
    assert_eq!(used, 2);
}

#[test]
fn stream_items_before_a_bad_frame_are_kept() {
    let t = Some(Box::new(Type::U8));
    let (items, end, used) = receive_stream_frames::<()>(&t, &[1, 7, 2], 0);
    assert_eq!(items.len(), 1);
    assert!(matches!(items[0], Some(Value::U8(7))));
    assert_eq!(end, FramesEnd::Failed(DecodeError::InvalidStream));
    assert_eq!(used, 2);
    let (items, end, _) = receive_stream_frames::<()>(&t, &[1, 7, 1, 9, 5], 0);
    assert_eq!(items.len(), 2);
    assert_eq!(end, FramesEnd::Failed(DecodeError::InvalidStream));
}

#[test]
fn protocol_token() {
    assert_eq!(wrpc_transport::PROTOCOL, "wrpc.0.0.1");
}

#[test]
fn ordinary_types_are_well_formed() {
    let ty = Type::Record(vec![
        Type::Variant(vec![None, Some(Type::Future(Some(Box::new(Type::U8))))]),
        Type::Result { ok: Some(Box::new(Type::List(Box::new(Type::String)))), err: None },
    ]);
    assert!(type_is_wf(&ty));
    assert!(type_is_wf(&Type::Tuple(vec![])));
}

#[test]
fn list_elements_are_sent_where_the_indeterminate_plan_receives() {
    let ty = Type::List(Box::new(Type::Future(None)));
    let v: Value<u8> = Value::List(vec![
        Value::Future(FutureValue::Pending(1)),
        Value::Future(FutureValue::Pending(2)),
    ]);
    let root = SubjectPath::root();
    let plan = plan_subscriptions(&root, &ty).unwrap();
    let planned: Vec<Vec<Option<u32>>> = subscribed_subjects(&plan).iter().map(path).collect();
    assert_eq!(planned, vec![vec![None]]);
    let mut buf = Vec::new();
    let a = encode(v, &mut buf).unwrap();
    assert_eq!(buf, vec![2, 0, 0]);
    let sent: Vec<Vec<Option<u32>>> = async_targets(&root, a).iter().map(|t| path(&t.0)).collect();
    assert_eq!(sent, vec![vec![Some(0)], vec![Some(1)]]);
}

#[test]
fn parts_of_a_ready_future_go_below_its_child_zero() {
    let ty = Type::Future(Some(Box::new(Type::Stream(Some(Box::new(Type::U8))))));
    let v: Value<u8> = Value::Future(FutureValue::Ready(Some(Box::new(Value::Stream(
        StreamValue::Pending(3),
    )))));
    let root = SubjectPath::root();
    let plan = plan_subscriptions(&root, &ty).unwrap();
    let planned: Vec<Vec<Option<u32>>> = subscribed_subjects(&plan).iter().map(path).collect();
    assert_eq!(planned, vec![vec![], vec![Some(0)]]);
    let mut buf = Vec::new();
    let a = encode(v, &mut buf).unwrap();
    assert_eq!(buf, vec![1, 0]);
    let targets = async_targets(&root, a);
    assert_eq!(targets.len(), 1);
    assert_eq!(path(&targets[0].0), vec![Some(0)]);
    assert!(matches!(targets[0].1, AsyncLeaf::Stream(StreamValue::Pending(3))));
    let (b, a) = encode_future_payload::<u8>(Some(Value::Option(Some(Box::new(Value::Future(
        FutureValue::Pending(4),
    ))))));
    assert_eq!(b, vec![1, 0]);
    let nested: Vec<Vec<Option<u32>>> = async_targets(&SubjectPath::root().child(Some(0)), a.unwrap())
        .iter()
        .map(|t| path(&t.0))
        .collect();
    assert_eq!(nested, vec![vec![Some(0), Some(1)]]);
}
