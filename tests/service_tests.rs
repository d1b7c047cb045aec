use leaderboard_bot::router::{error_reply, registration_reply, Action, BotError, Command, Router, Tick};
use leaderboard_bot::service::Service;
use leaderboard_bot::store::{Record, Store};

fn rec(handle: &str, score: i32) -> Record {
    Record { handle: handle.to_string(), external_handle: String::new(), score }
}

fn register(arg: &str) -> Command {
    Command::Register { handle: arg.to_string() }
}

#[test]
fn leaderboard_end_to_end() {
    let store = Store::from_records(vec![rec("bob", 7), rec("carol", 12)]).unwrap();
    let mut svc = Service::new(Router::new(None, None), store);
    let text = svc.answer(&Command::Leaderboard, 1, Some("bob"));
    assert_eq!(text, "Leaderboard 🏆\n1. @carol               12\n2. @bob                 7");
}

#[test]
fn leaderboard_is_capped() {
    let store = Store::from_records(vec![rec("a", 1), rec("b", 2), rec("c", 3)]).unwrap();
    let svc = Service::new(Router::new(None, Some(2)), store);
    assert_eq!(svc.leaderboard(), format!("Leaderboard 🏆\n1. {:<20} 3\n2. {:<20} 2", "@c", "@b"));
}

#[test]
fn empty_argument_writes_nothing() {
    let mut svc = Service::new(Router::new(None, None), Store::new());
    let text = svc.answer(&register(""), 1, Some("alice"));
    assert_eq!(text, "Please provide your X Handle");
    assert_eq!(svc.store.len(), 0);
}

#[test]
fn missing_identity_writes_nothing() {
    let mut svc = Service::new(Router::new(None, None), Store::new());
    let text = svc.answer(&register("x1"), 1, None);
    assert_eq!(text, "Something went wrong");
    assert_eq!(svc.store.len(), 0);
}

#[test]
fn registration_confirms_and_writes() {
    let mut svc = Service::new(Router::new(None, None), Store::new());
    let text = svc.answer(&register("x1"), 1, Some("alice"));
    assert_eq!(text, "Registered with X Handle x1.");
    let r = svc.store.lookup("alice").unwrap();
    assert_eq!(r.external_handle, "x1");
    assert_eq!(r.score, 0);
}

#[test]
fn first_start_records_destination_once() {
    let mut router = Router::new(None, None);
    assert_eq!(router.tick(), Tick::Skip);
    match router.decide(&Command::Start, 55, None) {
        Action::Reply(t) => assert_eq!(t, "Hello, world! Chat ID has been saved."),
        _ => panic!("expected a reply"),
    }
    match router.decide(&Command::Start, 66, None) {
        Action::Reply(t) => assert_eq!(t, "Hello, world!"),
        _ => panic!("expected a reply"),
    }
    assert_eq!(router.destination(), Some(55));
    assert_eq!(router.tick(), Tick::Broadcast(55));
}

#[test]
fn configured_destination_is_kept() {
    let mut router = Router::new(Some(-100), Some(5));
    router.decide(&Command::Start, 7, None);
    assert_eq!(router.destination(), Some(-100));
    assert_eq!(router.limit(), Some(5));
}

#[test]
fn help_lists_commands() {
    let mut router = Router::new(None, None);
    match router.decide(&Command::Help, 1, None) {
        Action::Reply(t) => assert_eq!(
            t,
            "These commands are supported:\n\n/start — Say hello\n/help, /h, /? — Display this text.\n\
             /leaderboard, /lb — Show the leaderboard.\n/register, /r — Register with your x-handle. \
             Example: /register username"
        ),
        _ => panic!("expected a reply"),
    }
}

#[test]
fn register_decision_carries_sender_and_argument() {
    let mut router = Router::new(None, None);
    match router.decide(&register("x9"), 1, Some("zed")) {
        Action::Register { handle, external_handle } => {
            assert_eq!(handle, "zed");
            assert_eq!(external_handle, "x9");
        }
        _ => panic!("expected a registration"),
    }
    assert!(matches!(router.decide(&Command::Leaderboard, 1, None), Action::ShowLeaderboard));
}

#[test]
fn error_texts() {
    assert_eq!(error_reply(BotError::IdentityMissing), "Something went wrong");
    assert_eq!(error_reply(BotError::EmptyArgument), "Please provide your X Handle");
    assert_eq!(error_reply(BotError::StorageError), "Something went wrong on our side, please try again later.");
    assert_eq!(error_reply(BotError::SendError), "The message could not be delivered.");
    assert_eq!(registration_reply(Err(BotError::StorageError), "x"), "Something went wrong on our side, please try again later.");
    assert_eq!(registration_reply(Ok(()), "x"), "Registered with X Handle x.");
}
