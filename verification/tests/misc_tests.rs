use pocket_tts::error::{backend, AttentionError};
use pocket_tts::names::{is_whitespace, listed_names};
use pocket_tts::serve::UiMode;
use pocket_tts::shape::checked_count4;
use pocket_tts::stream::{next_action, StreamAction, StreamControlCode, StreamEvent};
use pocket_tts::wasm_demo::WasmDemoArgs;
use std::path::PathBuf;

#[test]
fn ui_mode_names() {
    assert_eq!(UiMode::Standard.as_str(), "standard");
    assert_eq!(UiMode::WasmExperimental.as_str(), "wasm-experimental");
}

#[test]
fn stream_control_code_from_byte() {
    assert_eq!(StreamControlCode::from_primitive(0), StreamControlCode::Proceed);
    assert_eq!(StreamControlCode::from_primitive(1), StreamControlCode::Stop);
    assert_eq!(StreamControlCode::from_primitive(2), StreamControlCode::Unknown);
    assert_eq!(StreamControlCode::from_primitive(3), StreamControlCode::Unknown);
    assert_eq!(StreamControlCode::from_primitive(255), StreamControlCode::Unknown);
}

#[test]
fn stream_control_code_round_trip() {
    for code in [StreamControlCode::Proceed, StreamControlCode::Stop, StreamControlCode::Unknown] {
        assert_eq!(StreamControlCode::from_primitive(code.to_primitive()), code);
    }
    assert_eq!(StreamControlCode::Proceed.to_primitive(), 0);
    assert_eq!(StreamControlCode::Stop.to_primitive(), 1);
    assert_eq!(StreamControlCode::Unknown.to_primitive(), 2);
}

#[test]
fn stream_next_action() {
    let delivered = StreamEvent::Delivered;
    assert_eq!(next_action(delivered(StreamControlCode::Proceed)), StreamAction::Continue);
    assert_eq!(next_action(delivered(StreamControlCode::Stop)), StreamAction::Finish);
    assert_eq!(next_action(delivered(StreamControlCode::Unknown)), StreamAction::Fail);
    assert_eq!(next_action(StreamEvent::ChunkFailed), StreamAction::Fail);
    assert_eq!(next_action(StreamEvent::Exhausted), StreamAction::Finish);
}

#[test]
fn wasm_demo_args_ignored_paths() {
    let plain = WasmDemoArgs { host: "127.0.0.1".to_string(), port: 8080, root: None, models: None };
    assert!(!plain.names_ignored_paths());
    let root = WasmDemoArgs {
        host: "127.0.0.1".to_string(),
        port: 8080,
        root: Some(PathBuf::from("/srv")),
        models: None,
    };
    assert!(root.names_ignored_paths());
    let models = WasmDemoArgs {
        host: "127.0.0.1".to_string(),
        port: 8080,
        root: None,
        models: Some(PathBuf::from("models")),
    };
    assert!(models.names_ignored_paths());
}

#[test]
fn error_messages() {
    assert_eq!(
        AttentionError::Shape.message(),
        "tensor shape does not match the attention configuration"
    );
    assert_eq!(
        AttentionError::MissingState.message(),
        "key/value cache is missing from the layer state"
    );
    assert_eq!(AttentionError::Numeric.message(), "a query row has no key left to attend to");
    let e = AttentionError::Backend(candle_core::Error::Msg("x".to_string()));
    assert_eq!(e.message(), "the tensor backend failed");
}

#[test]
fn backend_maps_errors() {
    let ok: Result<u8, candle_core::Error> = Ok(3);
    assert!(matches!(backend(ok), Ok(3)));
    let err: Result<u8, candle_core::Error> = Err(candle_core::Error::Msg("boom".to_string()));
    match backend(err) {
        Err(AttentionError::Backend(cause)) => assert!(format!("{cause}").contains("boom")),
        _ => panic!("expected a backend error"),
    }
}

#[test]
fn checked_count4_values() {
    assert_eq!(checked_count4(1, 2, 3, 4), Some(24));
    assert_eq!(checked_count4(1, 0, 3, 4), None);
    assert_eq!(checked_count4(usize::MAX, 1, 1, 2), None);
    assert_eq!(checked_count4(1 << 20, 1 << 20, 1 << 20, 1 << 20), None);
    assert_eq!(checked_count4(usize::MAX, 1, 1, 1), Some(usize::MAX));
}

#[test]
fn ui_mode_assets() {
    assert!(!UiMode::Standard.needs_wasm_assets());
    assert!(UiMode::WasmExperimental.needs_wasm_assets());
}

fn split_trim_filter(list: &str) -> Vec<String> {
    list.split(',').map(str::trim).filter(|s| !s.is_empty()).map(str::to_string).collect()
}

#[test]
fn listed_names_examples() {
    assert_eq!(listed_names("alba"), vec!["alba"]);
    assert_eq!(listed_names("alba,marius"), vec!["alba", "marius"]);
    assert_eq!(listed_names(" alba , marius "), vec!["alba", "marius"]);
    assert_eq!(listed_names(""), Vec::<String>::new());
    assert_eq!(listed_names(" , ,, "), Vec::<String>::new());
    assert_eq!(listed_names(",a,,b,"), vec!["a", "b"]);
    assert_eq!(listed_names("two words,x"), vec!["two words", "x"]);
}

#[test]
fn listed_names_agrees_with_split_and_trim() {
    let cases = [
        "",
        ",",
        "a",
        " a",
        "a ",
        "a,b",
        "a, b ,c",
        "\t a\n,\u{a0}b\u{3000},\u{2003}",
        "é,ü ,\u{1680}ø",
        "a,,b,, ,c",
        "trailing,",
        ",leading",
        "in ner , sp ace",
        "\u{200b}zero-width is no space\u{200b}",
        "\u{85}next line\u{85},\u{2028}x\u{2029}",
    ];
    for case in cases {
        assert_eq!(listed_names(case), split_trim_filter(case), "case {case:?}");
    }
}

#[test]
fn is_whitespace_agrees_with_std() {
    for code in 0u32..=0x11000 {
        if let Some(c) = char::from_u32(code) {
            assert_eq!(is_whitespace(c), c.is_whitespace(), "U+{code:04X}");
        }
    }
}
