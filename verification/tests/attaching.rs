use d2s::attach::{
    attach_mode, closes_input, exit_code, AttachMode, ChannelEvent, ErrorSample, InputPump,
    InputStep, OutputEnd, OutputTask, Windup, WindupAction, WindupEvent, PTY_DRAIN_MS,
};
use d2s::session::PtySpec;

#[test]
fn a_terminal_is_used_where_one_was_asked_for() {
    let pty = PtySpec { term: "xterm".to_string(), cols: 80, rows: 24, px_width: 0, px_height: 0 };
    assert_eq!(attach_mode(&Some(pty)), AttachMode::Pty);
    assert_eq!(attach_mode(&None), AttachMode::Pipes);
    assert!(closes_input(AttachMode::Pipes));
    assert!(!closes_input(AttachMode::Pty));
}

fn written(events: Vec<ChannelEvent>) -> (Vec<u8>, bool) {
    let mut pump = InputPump::new();
    let mut bytes = Vec::new();
    for event in events {
        match pump.step(event) {
            InputStep::Write(data) => bytes.extend(data),
            InputStep::Finish => return (bytes, true),
            InputStep::Skip => {}
        }
    }
    (bytes, false)
}

#[test]
fn input_goes_on_until_the_client_ends_it() {
    let data = |s: &str| ChannelEvent::Data(s.as_bytes().to_vec());
    for end in [ChannelEvent::Eof, ChannelEvent::Close, ChannelEvent::Gone] {
        let (bytes, finished) =
            written(vec![data("ab"), ChannelEvent::Other, data("c"), end, data("d")]);
        assert_eq!(bytes, b"abc");
        assert!(finished);
    }
    let (bytes, finished) = written(vec![data("x"), ChannelEvent::Other]);
    assert_eq!(bytes, b"x");
    assert!(!finished);
}

#[test]
fn nothing_is_written_after_the_end() {
    let mut pump = InputPump::new();
    pump.step(ChannelEvent::Eof);
    assert!(!matches!(pump.step(ChannelEvent::Data(vec![1])), InputStep::Write(_)));
}

#[test]
fn a_sample_keeps_the_first_bytes() {
    let all: Vec<u8> = (0..3000).map(|i| (i % 251) as u8).collect();
    for piece in [1, 7, 1000, 1024, 1025, 4096] {
        let mut sample = ErrorSample::new();
        for chunk in all.chunks(piece) {
            sample.absorb(chunk);
        }
        assert_eq!(sample.bytes(), &all[..1024]);
    }
    let mut sample = ErrorSample::new();
    sample.absorb(b"");
    sample.absorb(b"short");
    assert_eq!(sample.bytes(), b"short");
    assert_eq!(sample.text(), "short");
    sample.absorb(b"\xff\xc3\xa9");
    assert_eq!(sample.text(), "short\u{fffd}\u{e9}");
}

#[test]
fn exit_codes_are_never_negative() {
    assert_eq!(exit_code(Some(0)), 0);
    assert_eq!(exit_code(Some(137)), 137);
    assert_eq!(exit_code(Some(-1)), 0);
    assert_eq!(exit_code(Some(i32::MIN)), 0);
    assert_eq!(exit_code(None), 255);
}

#[test]
fn pipes_are_read_to_their_end() {
    let mut windup = Windup::new(AttachMode::Pipes);
    assert_eq!(windup.step(WindupEvent::Output(OutputEnd::Done)), WindupAction::Nothing);
    assert_eq!(
        windup.step(WindupEvent::Exited(Some(3))),
        WindupAction::AwaitOutput { limit_ms: None }
    );
    assert_eq!(windup.step(WindupEvent::Output(OutputEnd::Done)), WindupAction::AwaitErrors);
    assert_eq!(
        windup.step(WindupEvent::Errors(OutputEnd::Done)),
        WindupAction::Close { status: 3 }
    );
    assert_eq!(windup.step(WindupEvent::Errors(OutputEnd::Done)), WindupAction::Nothing);
    assert_eq!(windup.step(WindupEvent::Exited(Some(9))), WindupAction::Nothing);
}

#[test]
fn pipes_are_waited_for_however_long_it_takes() {
    let mut windup = Windup::new(AttachMode::Pipes);
    windup.step(WindupEvent::Exited(Some(3)));
    assert_eq!(
        windup.step(WindupEvent::Output(OutputEnd::TimedOut)),
        WindupAction::AwaitOutput { limit_ms: None }
    );
    assert_eq!(windup.step(WindupEvent::Output(OutputEnd::Done)), WindupAction::AwaitErrors);
    assert_eq!(windup.step(WindupEvent::Errors(OutputEnd::TimedOut)), WindupAction::AwaitErrors);
    assert_eq!(
        windup.step(WindupEvent::Errors(OutputEnd::Done)),
        WindupAction::Close { status: 3 }
    );
}

#[test]
fn a_terminal_is_waited_for_only_so_long() {
    assert_eq!(PTY_DRAIN_MS, 200);
    for end in [OutputEnd::Done, OutputEnd::TimedOut] {
        let mut windup = Windup::new(AttachMode::Pty);
        assert_eq!(
            windup.step(WindupEvent::Exited(None)),
            WindupAction::AwaitOutput { limit_ms: Some(200) }
        );
        assert_eq!(
            windup.step(WindupEvent::Output(end)),
            WindupAction::Close { status: 255 }
        );
    }
}

#[test]
fn failures_end_the_winding_up() {
    let cases = [
        (AttachMode::Pipes, OutputTask::Stdout, "stdout task join failed"),
        (AttachMode::Pty, OutputTask::PtyStdout, "pty stdout task join failed"),
    ];
    for (mode, task, message) in cases {
        let mut windup = Windup::new(mode);
        windup.step(WindupEvent::Exited(Some(0)));
        assert_eq!(
            windup.step(WindupEvent::Output(OutputEnd::Lost)),
            WindupAction::GiveUpLost { task }
        );
        assert_eq!(task.lost_message(), message);
        let mut windup = Windup::new(mode);
        windup.step(WindupEvent::Exited(Some(0)));
        assert_eq!(windup.step(WindupEvent::Output(OutputEnd::Failed)), WindupAction::GiveUp);
    }
    for (end, action) in [
        (OutputEnd::Failed, WindupAction::GiveUp),
        (OutputEnd::Lost, WindupAction::GiveUpLost { task: OutputTask::Stderr }),
    ] {
        let mut windup = Windup::new(AttachMode::Pipes);
        windup.step(WindupEvent::Exited(Some(0)));
        windup.step(WindupEvent::Output(OutputEnd::Done));
        assert_eq!(windup.step(WindupEvent::Errors(end)), action);
    }
    assert_eq!(OutputTask::Stderr.lost_message(), "stderr task join failed");
}
