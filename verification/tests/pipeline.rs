use bus_json::convert::ConvertError;
use bus_json::json::Json;
use bus_json::pipeline::step;
use bus_json::pipeline::strip_line_end;
use bus_json::pipeline::Action;
use bus_json::pipeline::Ending;
use bus_json::pipeline::Failure;
use bus_json::pipeline::Input;
use bus_json::pipeline::State;
use bus_json::record::Record;
use bus_json::render::record_text;
use bus_json::value::BusValue;
use bus_json::value::Entries;

fn signal(member: &str, arguments: Vec<BusValue>) -> Input {
    Input::Signal { member: Some(member.to_string()), arguments }
}

fn unreadable_mapping(cause: &str) -> BusValue {
    BusValue::Dict {
        key_signature: "s".to_string(),
        value_signature: "v".to_string(),
        entries: Entries::Unreadable(cause.to_string()),
    }
}

/// Runs the pipeline over a queue of signals with a query engine that
/// hands every record back as it is, and collects what is printed.
fn run(queue: Vec<Input>) -> (Vec<String>, State, Option<i32>) {
    let mut state = State::Listening;
    let mut printed = Vec::new();
    let mut code = None;
    for input in queue {
        let (next, action) = step(state, input);
        state = next;
        match action {
            Action::Query { record, text } => {
                assert_eq!(text, record_text(&record));
                let document = text.unwrap();
                let (next, action) = step(state, Input::Filtered(format!("{}\n", document)));
                state = next;
                match action {
                    Action::Print(line) => printed.push(line),
                    other => panic!("expected a line to print, got {:?}", other),
                }
            }
            Action::Print(line) => panic!("nothing was queried, yet {:?} is to be printed", line),
            Action::Exit(exit) => {
                if code.is_none() {
                    code = Some(exit);
                }
            }
        }
    }
    (printed, state, code)
}

#[test]
fn a_signal_gives_a_record_to_query() {
    let (state, action) = step(State::Listening, signal("Tick", vec![BusValue::U8(1)]));
    assert_eq!(state, State::Listening);
    assert_eq!(
        action,
        Action::Query {
            record: Record {
                signal: "Tick".to_string(),
                data: Json::Array(vec![Json::Integer(1)]),
                signature: Json::String("(y)".to_string()),
            },
            text: Some("{\"data\":[1],\"signal\":\"Tick\",\"signature\":\"(y)\"}".to_string()),
        }
    );
}

#[test]
fn a_signal_with_a_double_gives_a_record_without_text() {
    let (state, action) =
        step(State::Listening, signal("Level", vec![BusValue::Double(0.25f64.to_bits())]));
    assert_eq!(state, State::Listening);
    assert_eq!(
        action,
        Action::Query {
            record: Record {
                signal: "Level".to_string(),
                data: Json::Array(vec![Json::Double(0.25f64.to_bits())]),
                signature: Json::String("(d)".to_string()),
            },
            text: None,
        }
    );
}

#[test]
fn a_signal_without_member_name_gives_an_empty_signal() {
    let (state, action) =
        step(State::Listening, Input::Signal { member: None, arguments: vec![] });
    assert_eq!(state, State::Listening);
    match action {
        Action::Query { record, text } => {
            assert_eq!(record.signal, "");
            assert_eq!(
                text.unwrap(),
                "{\"data\":[],\"signal\":\"\",\"signature\":\"()\"}"
            );
        }
        other => panic!("expected a record, got {:?}", other),
    }
}

#[test]
fn filtered_text_is_printed_without_its_line_end() {
    let (state, action) = step(State::Listening, Input::Filtered("{\"a\":1}\n".to_string()));
    assert_eq!(state, State::Listening);
    assert_eq!(action, Action::Print("{\"a\":1}".to_string()));
}

#[test]
fn the_end_of_the_stream_ends_the_run_cleanly() {
    let (state, action) = step(State::Listening, Input::Exhausted);
    assert_eq!(state, State::Terminated(Ending::Exhausted));
    assert_eq!(action, Action::Exit(0));
}

#[test]
fn an_unreadable_payload_ends_the_run() {
    let (state, action) = step(State::Listening, Input::Unreadable("bad body".to_string()));
    assert_eq!(
        state,
        State::Terminated(Ending::Failed(Failure::Payload("bad body".to_string())))
    );
    assert_eq!(action, Action::Exit(1));
}

#[test]
fn arguments_without_a_document_end_the_run() {
    let (state, action) =
        step(State::Listening, signal("Changed", vec![unreadable_mapping("truncated")]));
    assert_eq!(
        state,
        State::Terminated(Ending::Failed(Failure::Conversion(ConvertError::UnreadableMapping(
            "truncated".to_string()
        ))))
    );
    assert_eq!(action, Action::Exit(1));
}

#[test]
fn a_failure_of_the_query_engine_ends_the_run() {
    let (state, action) = step(State::Listening, Input::QueryFailed("bad filter".to_string()));
    assert_eq!(
        state,
        State::Terminated(Ending::Failed(Failure::Query("bad filter".to_string())))
    );
    assert_eq!(action, Action::Exit(1));
}

#[test]
fn a_run_that_has_ended_stays_as_it_ended() {
    let inputs = || {
        vec![
            signal("Tick", vec![BusValue::U8(1)]),
            Input::Unreadable("x".to_string()),
            Input::Filtered("text\n".to_string()),
            Input::QueryFailed("y".to_string()),
            Input::Exhausted,
        ]
    };
    for input in inputs() {
        let (state, action) = step(State::Terminated(Ending::Exhausted), input);
        assert_eq!(state, State::Terminated(Ending::Exhausted));
        assert_eq!(action, Action::Exit(0));
    }
    for input in inputs() {
        let failed = || State::Terminated(Ending::Failed(Failure::Query("boom".to_string())));
        let (state, action) = step(failed(), input);
        assert_eq!(state, failed());
        assert_eq!(action, Action::Exit(1));
    }
}

#[test]
fn exit_codes() {
    assert_eq!(Ending::Exhausted.exit_code(), 0);
    assert_eq!(Ending::Failed(Failure::Payload("p".to_string())).exit_code(), 1);
    assert_eq!(Ending::Failed(Failure::Conversion(ConvertError::KeyWithoutText)).exit_code(), 1);
    assert_eq!(Ending::Failed(Failure::Query("q".to_string())).exit_code(), 1);
}

#[test]
fn every_signal_of_a_healthy_stream_is_printed_in_order() {
    let (printed, state, code) = run(vec![
        signal("A", vec![BusValue::U8(1)]),
        signal("B", vec![BusValue::Str("two".to_string())]),
        signal("C", vec![]),
        Input::Exhausted,
    ]);
    assert_eq!(
        printed,
        vec![
            "{\"data\":[1],\"signal\":\"A\",\"signature\":\"(y)\"}".to_string(),
            "{\"data\":[\"two\"],\"signal\":\"B\",\"signature\":\"(s)\"}".to_string(),
            "{\"data\":[],\"signal\":\"C\",\"signature\":\"()\"}".to_string(),
        ]
    );
    assert_eq!(state, State::Terminated(Ending::Exhausted));
    assert_eq!(code, Some(0));
}

#[test]
fn a_malformed_second_signal_stops_the_run_after_the_first_line() {
    let (printed, state, code) = run(vec![
        signal("First", vec![BusValue::U8(1)]),
        Input::Unreadable("payload is cut short".to_string()),
        signal("Third", vec![BusValue::U8(3)]),
    ]);
    assert_eq!(printed, vec!["{\"data\":[1],\"signal\":\"First\",\"signature\":\"(y)\"}".to_string()]);
    assert_eq!(
        state,
        State::Terminated(Ending::Failed(Failure::Payload("payload is cut short".to_string())))
    );
    assert_eq!(code, Some(1));
}

#[test]
fn a_second_signal_without_a_document_stops_the_run_after_the_first_line() {
    let (printed, state, code) = run(vec![
        signal("First", vec![BusValue::U8(1)]),
        signal("Second", vec![unreadable_mapping("truncated")]),
        signal("Third", vec![BusValue::U8(3)]),
    ]);
    assert_eq!(printed.len(), 1);
    assert_eq!(
        state,
        State::Terminated(Ending::Failed(Failure::Conversion(ConvertError::UnreadableMapping(
            "truncated".to_string()
        ))))
    );
    assert_eq!(code, Some(1));
}

#[test]
fn one_line_feed_is_stripped() {
    assert_eq!(strip_line_end("abc\n".to_string()), "abc");
    assert_eq!(strip_line_end("\n".to_string()), "");
}

#[test]
fn only_one_line_feed_is_stripped() {
    assert_eq!(strip_line_end("abc\n\n".to_string()), "abc\n");
    assert_eq!(strip_line_end("a\nb\n".to_string()), "a\nb");
}

#[test]
fn a_text_without_line_end_is_kept() {
    assert_eq!(strip_line_end("abc".to_string()), "abc");
    assert_eq!(strip_line_end("".to_string()), "");
    assert_eq!(strip_line_end("abc\r".to_string()), "abc\r");
    assert_eq!(strip_line_end("abc\n ".to_string()), "abc\n ");
}

#[test]
fn a_carriage_return_before_the_line_feed_is_kept() {
    assert_eq!(strip_line_end("abc\r\n".to_string()), "abc\r");
}

#[test]
fn text_of_more_than_one_byte_per_character_is_stripped_by_character() {
    assert_eq!(strip_line_end("日本\n".to_string()), "日本");
    assert_eq!(strip_line_end("é".to_string()), "é");
}

#[test]
fn the_causes_of_a_failure_are_told_layer_by_layer() {
    assert_eq!(
        Failure::Payload("bad signature".to_string()).causes(),
        vec![
            "Failed while receiving messages".to_string(),
            "Couldn't deserialize message".to_string(),
            "bad signature".to_string(),
        ]
    );
    assert_eq!(
        Failure::Conversion(ConvertError::KeyCollision("1".to_string())).causes(),
        vec![
            "Failed while receiving messages".to_string(),
            "Couldn't convert message".to_string(),
            "Dict has more than one key that reads: 1".to_string(),
        ]
    );
    assert_eq!(
        Failure::Query("jq: error".to_string()).causes(),
        vec![
            "Failed while receiving messages".to_string(),
            "Query engine failed to run".to_string(),
            "jq: error".to_string(),
        ]
    );
}
