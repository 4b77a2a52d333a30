use nbterm::events::{EventContent, IopubEvent, KernelMessage};
use nbterm::protocol::{
    completion_step, listener_step, CompletionError, CompletionReply, CompletionStep, ShellRead,
};

fn reply(parent: &str, matches: Option<Vec<&str>>) -> ShellRead {
    ShellRead::Reply {
        parent_id: Some(parent.to_string()),
        completion: matches.map(|m| CompletionReply {
            matches: m.into_iter().map(|s| s.to_string()).collect(),
            cursor_start: 0,
            cursor_end: 3,
        }),
    }
}

fn run(id: &str, reads: Vec<ShellRead>) -> Result<CompletionReply, CompletionError> {
    let id = id.to_string();
    for r in reads {
        if let CompletionStep::Finish(res) = completion_step(&id, r) {
            return res;
        }
    }
    Err(CompletionError::Timeout)
}

#[test]
fn unrelated_replies_are_skipped() {
    let res = run(
        "c1",
        vec![reply("exec-1", None), reply("other", Some(vec!["nope"])), reply("c1", Some(vec!["print", "prin"]))],
    );
    match res {
        Ok(r) => {
            assert_eq!(r.matches, vec!["print".to_string(), "prin".to_string()]);
            assert_eq!(r.cursor_end, 3);
        }
        Err(_) => panic!("expected the completion reply"),
    }
}

#[test]
fn matching_id_without_completion_is_skipped() {
    let id = "c1".to_string();
    assert!(matches!(completion_step(&id, reply("c1", None)), CompletionStep::Wait));
    let no_parent = ShellRead::Reply { parent_id: None, completion: None };
    assert!(matches!(completion_step(&id, no_parent), CompletionStep::Wait));
}

#[test]
fn no_matching_reply_times_out() {
    let res = run("c1", vec![reply("exec-1", None), reply("exec-2", None), ShellRead::TimedOut]);
    assert!(matches!(res, Err(CompletionError::Timeout)));
}

#[test]
fn read_failure_ends_exchange() {
    let res = run("c1", vec![reply("exec-1", None), ShellRead::Failed("closed".to_string())]);
    match res {
        Err(CompletionError::ReadFailed(m)) => assert_eq!(m, "closed"),
        _ => panic!("expected a read failure"),
    }
}

#[test]
fn listener_forwards_then_stops_on_error() {
    let ok = listener_step(Ok(IopubEvent { parent_id: None, content: EventContent::Other }));
    assert!(ok.1);
    assert!(matches!(ok.0, KernelMessage::IoPub(_)));
    let err = listener_step(Err("recv failed".to_string()));
    assert!(!err.1);
    match err.0 {
        KernelMessage::IoPubError(m) => assert_eq!(m, "recv failed"),
        _ => panic!("expected an error marker"),
    }
}
