use embed_host::buffer::MessageBuffer;
use embed_host::engine::ModelEngine;
use embed_host::engine::ScriptBehavior;
use embed_host::handle::EngineHandle;
use embed_host::host::run;
use embed_host::outcome::ExecutionOutcome;
use embed_host::outcome::HostError;

fn behavior(
    filename: &str,
    source: &str,
    throws: bool,
    message: &str,
    sends: Vec<MessageBuffer>,
) -> ScriptBehavior {
    ScriptBehavior {
        filename: filename.to_string(),
        source: source.to_string(),
        throws,
        message: message.to_string(),
        sends,
    }
}

fn plain_engine() -> ModelEngine {
    ModelEngine::new(Vec::new(), Vec::new())
}

#[test]
fn handle_lifecycle_counts() {
    let mut engine = plain_engine();
    engine.init();
    assert!(engine.is_initialized());
    assert_eq!(engine.create_count(), 0);
    assert_eq!(engine.delete_count(), 0);

    let mut handle = EngineHandle::create(&mut engine);
    assert_eq!(engine.create_count(), 1);
    assert!(engine.is_live(0));

    let first = handle.execute(&mut engine, "a.js", "main();");
    assert_eq!(first, Ok(ExecutionOutcome::Success));
    let second = handle.execute(&mut engine, "a.js", "main();");
    assert_eq!(second, Ok(ExecutionOutcome::Success));
    assert_eq!(engine.execute_count(), 2);
    assert!(engine.is_live(0));

    handle.delete(&mut engine);
    assert_eq!(engine.create_count(), 1);
    assert_eq!(engine.delete_count(), 1);
    assert!(!engine.is_live(0));
}

#[test]
fn each_create_gets_its_own_context() {
    let mut engine = plain_engine();
    engine.init();
    let first = EngineHandle::create(&mut engine);
    let second = EngineHandle::create(&mut engine);
    assert_eq!(engine.create_count(), 2);
    assert!(engine.is_live(0));
    assert!(engine.is_live(1));
    first.delete(&mut engine);
    assert_eq!(engine.delete_count(), 1);
    assert!(!engine.is_live(0));
    assert!(engine.is_live(1));
    second.delete(&mut engine);
    assert_eq!(engine.delete_count(), 2);
    assert!(!engine.is_live(1));
}

#[test]
fn partition_keeps_relative_order() {
    let recognized = vec!["--trace".to_string(), "--stack-size=100".to_string()];
    let mut engine = ModelEngine::new(recognized, Vec::new());
    engine.init();
    let args = vec![
        "prog".to_string(),
        "--trace".to_string(),
        "app.js".to_string(),
        "--stack-size=100".to_string(),
        "-v".to_string(),
    ];
    let rem = embed_host::flags::partition_flags(&mut engine, &args).unwrap();
    assert_eq!(
        rem,
        vec!["prog".to_string(), "app.js".to_string(), "-v".to_string()]
    );
    assert_eq!(engine.flag_parse_count(), 1);
}

#[test]
fn partition_with_nothing_recognized_returns_everything() {
    let mut engine = plain_engine();
    engine.init();
    let args = vec!["prog".to_string(), "--x".to_string()];
    let rem = embed_host::flags::partition_flags(&mut engine, &args).unwrap();
    assert_eq!(rem, args);
}

#[test]
fn exception_round_trip() {
    let behaviors = vec![behavior("deno_main.js", "denoMain();", true, "boom", Vec::new())];
    let mut engine = ModelEngine::new(Vec::new(), behaviors);
    engine.init();
    let mut handle = EngineHandle::create(&mut engine);
    let outcome = handle.execute(&mut engine, "deno_main.js", "denoMain();");
    assert_eq!(outcome, Ok(ExecutionOutcome::Exception("boom".to_string())));
    // the same still-live handle, queried before any other call, yields the
    // identical text
    assert!(engine.is_live(0));
    let queried = handle.last_exception(&engine);
    assert_eq!(queried, Some("boom".to_string()));
    handle.delete(&mut engine);
}

#[test]
fn success_path_exits_zero_without_diagnostic() {
    let behaviors = vec![behavior("deno_main.js", "denoMain();", false, "", Vec::new())];
    let mut engine = ModelEngine::new(Vec::new(), behaviors);
    let args = vec!["prog".to_string()];
    let report = run(&mut engine, &args, "deno_main.js", "denoMain();");
    assert_eq!(report.exit_code, 0);
    assert_eq!(report.diagnostic, None);
    assert_eq!(report.remaining, vec!["prog".to_string()]);
    assert_eq!(engine.delete_count(), 1);
}

#[test]
fn run_partitions_flags_and_keeps_the_rest() {
    let recognized = vec!["--gc-stress".to_string()];
    let behaviors = vec![behavior("deno_main.js", "denoMain();", false, "", Vec::new())];
    let mut engine = ModelEngine::new(recognized, behaviors);
    let args = vec![
        "prog".to_string(),
        "--gc-stress".to_string(),
        "script.js".to_string(),
    ];
    let report = run(&mut engine, &args, "deno_main.js", "denoMain();");
    assert_eq!(report.exit_code, 0);
    assert_eq!(
        report.remaining,
        vec!["prog".to_string(), "script.js".to_string()]
    );
    assert_eq!(engine.flag_parse_count(), 1);
    assert_eq!(engine.execute_count(), 1);
}

#[test]
fn unknown_script_completes_silently() {
    let mut engine = plain_engine();
    engine.init();
    let mut handle = EngineHandle::create(&mut engine);
    let outcome = handle.execute(&mut engine, "other.js", "x();");
    assert_eq!(outcome, Ok(ExecutionOutcome::Success));
    assert_eq!(handle.message_count(), 0);
    handle.delete(&mut engine);
}

#[test]
fn exception_run_exits_one_with_message() {
    let behaviors = vec![behavior("deno_main.js", "denoMain();", true, "boom", Vec::new())];
    let mut engine = ModelEngine::new(Vec::new(), behaviors);
    let args = vec!["prog".to_string()];
    let report = run(&mut engine, &args, "deno_main.js", "denoMain();");
    assert_eq!(report.exit_code, 1);
    assert_eq!(report.diagnostic, Some("boom".to_string()));
    assert_eq!(engine.delete_count(), 1);
    assert!(!engine.is_live(0));
}

#[test]
fn embedded_nul_in_filename_is_rejected_before_any_foreign_call() {
    let mut engine = plain_engine();
    engine.init();
    let mut handle = EngineHandle::create(&mut engine);
    let outcome = handle.execute(&mut engine, "bad\u{0}name.js", "main();");
    assert_eq!(outcome, Err(HostError::EncodingError));
    assert_eq!(engine.execute_count(), 0);
    handle.delete(&mut engine);
}

#[test]
fn embedded_nul_in_source_is_rejected_before_any_foreign_call() {
    let mut engine = plain_engine();
    engine.init();
    let mut handle = EngineHandle::create(&mut engine);
    let outcome = handle.execute(&mut engine, "a.js", "bad\u{0}();");
    assert_eq!(outcome, Err(HostError::EncodingError));
    assert_eq!(engine.execute_count(), 0);
    handle.delete(&mut engine);
}

#[test]
fn embedded_nul_in_argument_is_rejected_before_the_parser_runs() {
    let mut engine = plain_engine();
    engine.init();
    let args = vec!["prog".to_string(), "bad\u{0}arg".to_string()];
    let outcome = embed_host::flags::partition_flags(&mut engine, &args);
    assert_eq!(outcome, Err(HostError::EncodingError));
    assert_eq!(engine.flag_parse_count(), 0);
}

#[test]
fn embedded_nul_argument_makes_run_fail_with_diagnostic() {
    let mut engine = plain_engine();
    let args = vec!["prog".to_string(), "bad\u{0}arg".to_string()];
    let report = run(&mut engine, &args, "deno_main.js", "denoMain();");
    assert_eq!(report.exit_code, 1);
    assert_eq!(
        report.diagnostic,
        Some("embedded nul in text for the engine".to_string())
    );
    assert_eq!(engine.flag_parse_count(), 0);
    assert_eq!(engine.execute_count(), 0);
    assert_eq!(engine.create_count(), 0);
}

#[test]
fn message_channel_sees_every_send_in_order() {
    let sends = vec![
        MessageBuffer::new(16, 4, vec![1, 2, 3]),
        MessageBuffer::new(8, 0, vec![9]),
        MessageBuffer::new(4, 0, Vec::new()),
    ];
    let behaviors = vec![behavior("deno_main.js", "denoMain();", false, "", sends)];
    let mut engine = ModelEngine::new(Vec::new(), behaviors);
    engine.init();
    let mut handle = EngineHandle::create(&mut engine);
    let outcome = handle.execute(&mut engine, "deno_main.js", "denoMain();");
    assert_eq!(outcome, Ok(ExecutionOutcome::Success));
    assert_eq!(handle.message_count(), 3);
    let logged = handle.messages();
    assert_eq!(logged[0].data(), &vec![1u8, 2, 3]);
    assert_eq!(logged[0].alloc_len(), 16);
    assert_eq!(logged[0].data_offset(), 4);
    assert_eq!(logged[1].data(), &vec![9u8]);
    assert_eq!(logged[2].data_len(), 0);
    for b in logged {
        assert!(b.data_offset() + b.data_len() <= b.alloc_len());
    }
    handle.delete(&mut engine);
}

#[test]
fn channel_log_survives_deletion() {
    let sends = vec![MessageBuffer::new(2, 0, vec![7, 7])];
    let behaviors = vec![behavior("m.js", "m();", false, "", sends)];
    let mut engine = ModelEngine::new(Vec::new(), behaviors);
    engine.init();
    let mut handle = EngineHandle::create(&mut engine);
    handle.execute(&mut engine, "m.js", "m();").unwrap();
    let chan = handle.delete(&mut engine);
    assert_eq!(chan.count(), 1);
    assert_eq!(chan.log()[0].data(), &vec![7u8, 7]);
}
