use bus_json::convert::convert;
use bus_json::convert::convert_all;
use bus_json::convert::convert_members;
use bus_json::convert::is_finite;
use bus_json::convert::key_string;
use bus_json::convert::ConvertError;
use bus_json::json::Json;
use bus_json::json::Member;
use bus_json::value::BusValue;
use bus_json::value::Entries;
use bus_json::value::Entry;

fn text(s: &str) -> BusValue {
    BusValue::Str(s.to_string())
}

fn string(s: &str) -> Json {
    Json::String(s.to_string())
}

fn member(key: &str, value: Json) -> Member {
    Member { key: key.to_string(), value }
}

fn entry(key: BusValue, value: BusValue) -> Entry {
    Entry { key, value }
}

fn dict(key_signature: &str, value_signature: &str, entries: Vec<Entry>) -> BusValue {
    BusValue::Dict {
        key_signature: key_signature.to_string(),
        value_signature: value_signature.to_string(),
        entries: Entries::Pairs(entries),
    }
}

fn array(element_signature: &str, items: Vec<BusValue>) -> BusValue {
    BusValue::Array { element_signature: element_signature.to_string(), items }
}

fn variant(inner: BusValue) -> BusValue {
    BusValue::Variant(Box::new(inner))
}

#[test]
fn unsigned_integers_become_integers() {
    assert_eq!(convert(&BusValue::U8(255)), Ok(Json::Integer(255)));
    assert_eq!(convert(&BusValue::U16(65535)), Ok(Json::Integer(65535)));
    assert_eq!(convert(&BusValue::U32(4294967295)), Ok(Json::Integer(4294967295)));
    assert_eq!(convert(&BusValue::U64(0)), Ok(Json::Integer(0)));
}

#[test]
fn signed_integers_become_integers() {
    assert_eq!(convert(&BusValue::I16(-32768)), Ok(Json::Integer(-32768)));
    assert_eq!(convert(&BusValue::I32(-1)), Ok(Json::Integer(-1)));
    assert_eq!(convert(&BusValue::I32(2147483647)), Ok(Json::Integer(2147483647)));
    assert_eq!(convert(&BusValue::I64(42)), Ok(Json::Integer(42)));
}

#[test]
fn sixty_four_bit_integers_are_not_truncated() {
    assert_eq!(convert(&BusValue::U64(u64::MAX)), Ok(Json::Integer(18446744073709551615)));
    assert_eq!(convert(&BusValue::I64(i64::MIN)), Ok(Json::Integer(-9223372036854775808)));
    assert_eq!(convert(&BusValue::I64(i64::MAX)), Ok(Json::Integer(9223372036854775807)));
    assert_eq!(
        convert(&BusValue::U64((1 << 53) + 1)),
        Ok(Json::Integer(9007199254740993))
    );
}

#[test]
fn a_handle_becomes_the_number_of_its_descriptor() {
    assert_eq!(convert(&BusValue::Fd(3)), Ok(Json::Integer(3)));
    assert_eq!(convert(&BusValue::Fd(-1)), Ok(Json::Integer(-1)));
}

#[test]
fn a_boolean_stays_a_boolean() {
    assert_eq!(convert(&BusValue::Bool(true)), Ok(Json::Bool(true)));
    assert_eq!(convert(&BusValue::Bool(false)), Ok(Json::Bool(false)));
}

#[test]
fn texts_become_strings_verbatim() {
    assert_eq!(convert(&text("hello \"world\"\n")), Ok(string("hello \"world\"\n")));
    assert_eq!(
        convert(&BusValue::ObjectPath("/org/freedesktop/DBus".to_string())),
        Ok(string("/org/freedesktop/DBus"))
    );
    assert_eq!(convert(&BusValue::Signature("a{sv}".to_string())), Ok(string("a{sv}")));
    assert_eq!(convert(&text("")), Ok(string("")));
}

#[test]
fn a_finite_double_keeps_its_bits() {
    assert_eq!(convert(&BusValue::Double(1.5f64.to_bits())), Ok(Json::Double(1.5f64.to_bits())));
    assert_eq!(convert(&BusValue::Double(0.0f64.to_bits())), Ok(Json::Double(0)));
    assert_eq!(
        convert(&BusValue::Double((-0.0f64).to_bits())),
        Ok(Json::Double((-0.0f64).to_bits()))
    );
    assert_eq!(
        convert(&BusValue::Double(f64::MAX.to_bits())),
        Ok(Json::Double(f64::MAX.to_bits()))
    );
    assert_eq!(
        convert(&BusValue::Double(f64::MIN_POSITIVE.to_bits())),
        Ok(Json::Double(f64::MIN_POSITIVE.to_bits()))
    );
}

#[test]
fn a_double_that_is_not_finite_becomes_null() {
    assert_eq!(convert(&BusValue::Double(f64::NAN.to_bits())), Ok(Json::Null));
    assert_eq!(convert(&BusValue::Double(f64::INFINITY.to_bits())), Ok(Json::Null));
    assert_eq!(convert(&BusValue::Double(f64::NEG_INFINITY.to_bits())), Ok(Json::Null));
}

#[test]
fn finiteness_is_read_off_the_bits() {
    let samples = [
        0.0f64,
        -0.0,
        1.0,
        -1.5,
        f64::MAX,
        f64::MIN,
        f64::MIN_POSITIVE,
        5e-324,
        f64::NAN,
        f64::INFINITY,
        f64::NEG_INFINITY,
    ];
    for x in samples {
        assert_eq!(is_finite(x.to_bits()), x.is_finite(), "{}", x);
    }
    assert!(!is_finite(0x7ff0_0000_0000_0001));
    assert!(!is_finite(0xffff_ffff_ffff_ffff));
    assert!(is_finite(0x7fef_ffff_ffff_ffff));
}

#[test]
fn a_wrapped_string_converts_as_the_string() {
    let direct = convert(&text("inner"));
    let wrapped = convert(&variant(text("inner")));
    assert_eq!(wrapped, direct);
    assert_eq!(wrapped, Ok(string("inner")));
}

#[test]
fn wrapping_is_invisible_at_any_depth() {
    let value = variant(variant(variant(BusValue::U32(7))));
    assert_eq!(convert(&value), Ok(Json::Integer(7)));
    let list = variant(array("v", vec![variant(text("a")), variant(BusValue::Bool(true))]));
    assert_eq!(convert(&list), Ok(Json::Array(vec![string("a"), Json::Bool(true)])));
}

#[test]
fn an_array_keeps_length_and_order() {
    let value = array("u", vec![BusValue::U32(3), BusValue::U32(1), BusValue::U32(2)]);
    assert_eq!(
        convert(&value),
        Ok(Json::Array(vec![Json::Integer(3), Json::Integer(1), Json::Integer(2)]))
    );
}

#[test]
fn an_empty_array_becomes_an_empty_array() {
    assert_eq!(convert(&array("s", vec![])), Ok(Json::Array(vec![])));
}

#[test]
fn a_long_array_keeps_every_item_in_place() {
    let items: Vec<BusValue> = (0..200u32).map(BusValue::U32).collect();
    let expected: Vec<Json> = (0..200i128).map(Json::Integer).collect();
    assert_eq!(convert(&array("u", items)), Ok(Json::Array(expected)));
}

#[test]
fn a_structure_becomes_an_array_by_position() {
    let fields = vec![text("a"), BusValue::I32(-2), BusValue::Bool(true)];
    let each: Vec<Json> = fields.iter().map(|f| convert(f).unwrap()).collect();
    let whole = convert(&BusValue::Structure(fields));
    assert_eq!(whole, Ok(Json::Array(each)));
    assert_eq!(
        whole,
        Ok(Json::Array(vec![string("a"), Json::Integer(-2), Json::Bool(true)]))
    );
}

#[test]
fn an_empty_structure_becomes_an_empty_array() {
    assert_eq!(convert(&BusValue::Structure(vec![])), Ok(Json::Array(vec![])));
}

#[test]
fn containers_nest() {
    let value = BusValue::Structure(vec![
        array("(si)", vec![BusValue::Structure(vec![text("x"), BusValue::I32(1)])]),
        dict("s", "v", vec![entry(text("k"), variant(BusValue::Bool(false)))]),
    ]);
    assert_eq!(
        convert(&value),
        Ok(Json::Array(vec![
            Json::Array(vec![Json::Array(vec![string("x"), Json::Integer(1)])]),
            Json::Object(vec![member("k", Json::Bool(false))]),
        ]))
    );
}

#[test]
fn integer_keys_are_written_as_text() {
    let value = dict(
        "u",
        "s",
        vec![entry(BusValue::U32(1), text("x")), entry(BusValue::U32(2), text("y"))],
    );
    assert_eq!(
        convert(&value),
        Ok(Json::Object(vec![member("1", string("x")), member("2", string("y"))]))
    );
}

#[test]
fn string_keys_stay_as_they_are() {
    let value = dict("s", "i", vec![entry(text("one"), BusValue::I32(1))]);
    assert_eq!(convert(&value), Ok(Json::Object(vec![member("one", Json::Integer(1))])));
}

#[test]
fn an_empty_mapping_becomes_an_empty_object() {
    assert_eq!(convert(&dict("s", "v", vec![])), Ok(Json::Object(vec![])));
}

#[test]
fn members_stand_in_the_order_of_their_keys() {
    let value = dict(
        "s",
        "u",
        vec![
            entry(text("pear"), BusValue::U32(1)),
            entry(text("apple"), BusValue::U32(2)),
            entry(text("zebra"), BusValue::U32(3)),
            entry(text("fig"), BusValue::U32(4)),
        ],
    );
    assert_eq!(
        convert(&value),
        Ok(Json::Object(vec![
            member("apple", Json::Integer(2)),
            member("fig", Json::Integer(4)),
            member("pear", Json::Integer(1)),
            member("zebra", Json::Integer(3)),
        ]))
    );
}

#[test]
fn the_order_of_the_entries_does_not_matter() {
    let forward = dict(
        "u",
        "s",
        vec![entry(BusValue::U32(1), text("x")), entry(BusValue::U32(2), text("y"))],
    );
    let backward = dict(
        "u",
        "s",
        vec![entry(BusValue::U32(2), text("y")), entry(BusValue::U32(1), text("x"))],
    );
    assert_eq!(convert(&forward), convert(&backward));
}

#[test]
fn numeric_keys_are_ordered_as_text() {
    let value = dict(
        "u",
        "b",
        vec![
            entry(BusValue::U32(2), BusValue::Bool(true)),
            entry(BusValue::U32(10), BusValue::Bool(false)),
        ],
    );
    assert_eq!(
        convert(&value),
        Ok(Json::Object(vec![member("10", Json::Bool(false)), member("2", Json::Bool(true))]))
    );
}

#[test]
fn an_integer_and_a_string_that_read_the_same_collide() {
    let value = dict(
        "v",
        "s",
        vec![entry(variant(BusValue::I32(1)), text("x")), entry(variant(text("1")), text("y"))],
    );
    assert_eq!(convert(&value), Err(ConvertError::KeyCollision("1".to_string())));
}

#[test]
fn a_collision_of_bare_keys_is_reported() {
    let value = dict("s", "s", vec![entry(BusValue::I32(1), text("x")), entry(text("1"), text("y"))]);
    assert_eq!(convert(&value), Err(ConvertError::KeyCollision("1".to_string())));
}

#[test]
fn a_repeated_key_collides() {
    let value = dict(
        "s",
        "u",
        vec![
            entry(text("a"), BusValue::U32(1)),
            entry(text("b"), BusValue::U32(2)),
            entry(text("a"), BusValue::U32(3)),
        ],
    );
    assert_eq!(convert(&value), Err(ConvertError::KeyCollision("a".to_string())));
}

#[test]
fn a_collision_deep_inside_fails_the_whole_value() {
    let inner = dict("y", "y", vec![
        entry(BusValue::U8(7), BusValue::U8(0)),
        entry(BusValue::U8(7), BusValue::U8(1)),
    ]);
    let value = BusValue::Structure(vec![text("ok"), array("a{yy}", vec![variant(inner)])]);
    assert_eq!(convert(&value), Err(ConvertError::KeyCollision("7".to_string())));
}

#[test]
fn a_mapping_that_could_not_be_read_fails_with_the_cause() {
    let value = BusValue::Dict {
        key_signature: "s".to_string(),
        value_signature: "v".to_string(),
        entries: Entries::Unreadable("incorrect type".to_string()),
    };
    assert_eq!(convert(&value), Err(ConvertError::UnreadableMapping("incorrect type".to_string())));
}

#[test]
fn a_key_without_text_fails() {
    let double_key = dict("d", "s", vec![entry(BusValue::Double(1.0f64.to_bits()), text("x"))]);
    assert_eq!(convert(&double_key), Err(ConvertError::KeyWithoutText));
    let array_key = dict("as", "s", vec![entry(array("s", vec![]), text("x"))]);
    assert_eq!(convert(&array_key), Err(ConvertError::KeyWithoutText));
    let structure_key = dict("(s)", "s", vec![entry(BusValue::Structure(vec![text("k")]), text("x"))]);
    assert_eq!(convert(&structure_key), Err(ConvertError::KeyWithoutText));
    let mapping_key = dict("a{ss}", "s", vec![entry(dict("s", "s", vec![]), text("x"))]);
    assert_eq!(convert(&mapping_key), Err(ConvertError::KeyWithoutText));
}

#[test]
fn the_first_entry_that_fails_decides() {
    let value = dict(
        "v",
        "v",
        vec![
            entry(text("a"), BusValue::U8(1)),
            entry(array("s", vec![]), BusValue::U8(2)),
            entry(text("a"), BusValue::U8(3)),
        ],
    );
    assert_eq!(convert(&value), Err(ConvertError::KeyWithoutText));
    let value = dict(
        "v",
        "v",
        vec![
            entry(text("a"), BusValue::U8(1)),
            entry(text("a"), BusValue::U8(3)),
            entry(array("s", vec![]), BusValue::U8(2)),
        ],
    );
    assert_eq!(convert(&value), Err(ConvertError::KeyCollision("a".to_string())));
}

#[test]
fn the_first_item_that_fails_decides() {
    let unreadable = |cause: &str| BusValue::Dict {
        key_signature: "s".to_string(),
        value_signature: "s".to_string(),
        entries: Entries::Unreadable(cause.to_string()),
    };
    let items = vec![BusValue::U8(1), unreadable("first"), unreadable("second")];
    assert_eq!(convert_all(&items), Err(ConvertError::UnreadableMapping("first".to_string())));
}

#[test]
fn convert_all_converts_each_item() {
    let items = vec![BusValue::U8(1), text("two")];
    assert_eq!(convert_all(&items), Ok(vec![Json::Integer(1), string("two")]));
    assert_eq!(convert_all(&vec![]), Ok(vec![]));
}

#[test]
fn convert_members_converts_each_entry() {
    let entries = vec![entry(BusValue::Bool(true), BusValue::U8(1)), entry(text("k"), text("v"))];
    assert_eq!(
        convert_members(&entries),
        Ok(vec![member("k", string("v")), member("true", Json::Integer(1))])
    );
}

#[test]
fn keys_of_every_simple_type_have_a_text() {
    assert_eq!(key_string(&BusValue::U8(3)), Some("3".to_string()));
    assert_eq!(key_string(&BusValue::I16(-3)), Some("-3".to_string()));
    assert_eq!(key_string(&BusValue::U16(300)), Some("300".to_string()));
    assert_eq!(key_string(&BusValue::I32(-70000)), Some("-70000".to_string()));
    assert_eq!(key_string(&BusValue::U32(70000)), Some("70000".to_string()));
    assert_eq!(key_string(&BusValue::I64(i64::MIN)), Some("-9223372036854775808".to_string()));
    assert_eq!(key_string(&BusValue::U64(u64::MAX)), Some("18446744073709551615".to_string()));
    assert_eq!(key_string(&BusValue::Fd(5)), Some("5".to_string()));
    assert_eq!(key_string(&BusValue::Bool(true)), Some("true".to_string()));
    assert_eq!(key_string(&BusValue::Bool(false)), Some("false".to_string()));
    assert_eq!(key_string(&text("plain")), Some("plain".to_string()));
    assert_eq!(key_string(&BusValue::ObjectPath("/a/b".to_string())), Some("/a/b".to_string()));
    assert_eq!(key_string(&BusValue::Signature("as".to_string())), Some("as".to_string()));
    assert_eq!(key_string(&variant(BusValue::U8(9))), Some("9".to_string()));
}

#[test]
fn doubles_and_containers_have_no_key_text() {
    assert_eq!(key_string(&BusValue::Double(0)), None);
    assert_eq!(key_string(&array("s", vec![])), None);
    assert_eq!(key_string(&dict("s", "s", vec![])), None);
    assert_eq!(key_string(&BusValue::Structure(vec![])), None);
    assert_eq!(key_string(&variant(BusValue::Double(0))), None);
}

#[test]
fn converting_twice_gives_the_same_document() {
    let value = BusValue::Structure(vec![
        dict("s", "v", vec![entry(text("b"), variant(BusValue::U8(1))), entry(text("a"), text("x"))]),
        array("d", vec![BusValue::Double(2.5f64.to_bits())]),
    ]);
    assert_eq!(convert(&value), convert(&value));
}

#[test]
fn failures_are_told_in_words() {
    assert_eq!(
        ConvertError::KeyCollision("1".to_string()).message(),
        "Dict has more than one key that reads: 1"
    );
    assert_eq!(ConvertError::KeyWithoutText.message(), "Dict has a key that cannot be written as text");
    assert_eq!(
        ConvertError::UnreadableMapping("truncated".to_string()).message(),
        "Dict couldn't be read as key/value pairs: truncated"
    );
}
