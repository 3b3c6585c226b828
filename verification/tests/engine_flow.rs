use nightstation_verify::ckey::Ckey;
use nightstation_verify::config::{config_wf, AppConfig, ConfigStore, Messages, Question};
use nightstation_verify::engine::{
    check_answers, AnswerOutcome, BanOutcome, BeginOutcome, CkeyOutcome, EngineError,
    GreetRefusal, GreetStep, JoinOutcome, StoreKind, Stores, VerificationEngine,
};
use nightstation_verify::identity::IdentityStore;
use nightstation_verify::status::VerificationRecord;
use nightstation_verify::whitelist::WhitelistStore;

const GUILD: u64 = 100;
const CHANNEL: u64 = 200;
const LOG: u64 = 201;
const ROLE: u64 = 300;

fn question(id: &str, prompt: &str, options: &[&str], correct: usize) -> Question {
    Question {
        id: id.to_string(),
        prompt: prompt.to_string(),
        answers: options.iter().map(|o| o.to_string()).collect(),
        correct_answer: correct,
    }
}

fn two_question_config() -> AppConfig {
    AppConfig {
        token: "SECRET-REDACTED".to_string(),
        application_id: 1,
        owner_id: 2,
        active_guild_id: GUILD,
        greeting_channel_id: CHANNEL,
        messages: Messages {
            greeting: "welcome".to_string(),
            verified: "you are in".to_string(),
            rejected: "nope".to_string(),
        },
        log_channel_id: LOG,
        verified_role_id: ROLE,
        ckey_prompt: "enter your ckey".to_string(),
        questions: vec![
            question("q1", "first?", &["yes", "no"], 0),
            question("q2", "second?", &["left", "right"], 1),
        ],
        whitelist_path: "whitelist.txt".to_string(),
    }
}

fn fresh_stores() -> Stores {
    Stores {
        config: Some(two_question_config()),
        identity: Some(IdentityStore::new()),
        whitelist: Some(WhitelistStore::new()),
    }
}

/// Walks a fresh identity through greeting, both questions answered
/// correctly, up to the ckey prompt.
fn advance_to_ckey_prompt(engine: &mut VerificationEngine, stores: &mut Stores, user: u64) {
    match engine.send_greeting(stores, user).unwrap() {
        GreetStep::Send { channel, .. } => assert_eq!(channel, CHANNEL),
        other => panic!("expected a greeting send, got {:?}", other),
    }
    engine.greeting_sent(user, 42);
    match engine
        .begin_verification(stores, Some(GUILD), user, 42)
        .unwrap()
    {
        BeginOutcome::FirstQuestion { prompt, options } => {
            assert_eq!(prompt, "first?");
            assert_eq!(options, vec!["yes".to_string(), "no".to_string()]);
        }
        other => panic!("expected the first question, got {:?}", other),
    }
    match engine
        .answer_submitted(stores, Some(GUILD), user, &vec!["yes".to_string()])
        .unwrap()
    {
        AnswerOutcome::NextQuestion { prompt, options } => {
            assert_eq!(prompt, "second?");
            assert_eq!(options, vec!["left".to_string(), "right".to_string()]);
        }
        other => panic!("expected the second question, got {:?}", other),
    }
    match engine
        .answer_submitted(stores, Some(GUILD), user, &vec!["right".to_string()])
        .unwrap()
    {
        AnswerOutcome::AskCkey { prompt, answers } => {
            assert_eq!(prompt, "enter your ckey");
            assert_eq!(answers, vec!["yes".to_string(), "right".to_string()]);
        }
        other => panic!("expected the ckey prompt, got {:?}", other),
    }
}

#[test]
fn validation_checks_length_and_each_answer() {
    let cfg = two_question_config();
    let ok = vec!["yes".to_string(), "right".to_string()];
    assert!(check_answers(&cfg.questions, &ok));
    let wrong_first = vec!["no".to_string(), "right".to_string()];
    assert!(!check_answers(&cfg.questions, &wrong_first));
    let wrong_second = vec!["yes".to_string(), "left".to_string()];
    assert!(!check_answers(&cfg.questions, &wrong_second));
    let short = vec!["yes".to_string()];
    assert!(!check_answers(&cfg.questions, &short));
    let long = vec!["yes".to_string(), "right".to_string(), "extra".to_string()];
    assert!(!check_answers(&cfg.questions, &long));
    let empty_bank: Vec<Question> = vec![];
    assert!(check_answers(&empty_bank, &vec![]));
}

#[test]
fn config_wf_accepts_and_refuses() {
    let good = two_question_config();
    assert!(config_wf(&good));
    let mut bad = two_question_config();
    bad.questions[1].correct_answer = 2;
    assert!(!config_wf(&bad));
}

#[test]
fn config_store_snapshot_and_replace() {
    let mut store = ConfigStore::new(two_question_config());
    assert_eq!(store.get().active_guild_id, GUILD);
    let mut next = two_question_config();
    next.active_guild_id = 999;
    let previous = store.replace(next);
    assert_eq!(previous.active_guild_id, GUILD);
    assert_eq!(store.get().active_guild_id, 999);
}

#[test]
fn greeting_is_sent_once_and_reference_is_stable() {
    let mut engine = VerificationEngine::new();
    let stores = fresh_stores();
    match engine.send_greeting(&stores, 1).unwrap() {
        GreetStep::Send { channel, text } => {
            assert_eq!(channel, CHANNEL);
            assert_eq!(text, "welcome");
        }
        other => panic!("expected a greeting send, got {:?}", other),
    }
    assert!(engine.greeting_sent(1, 42));
    assert!(matches!(
        engine.get_status(1),
        Some(VerificationRecord::Greeted { message_ref: 42 })
    ));
    // Re-invocation returns the same message reference, with no change.
    match engine.send_greeting(&stores, 1).unwrap() {
        GreetStep::AlreadyGreeted { message_ref } => assert_eq!(message_ref, 42),
        other => panic!("expected the stored reference, got {:?}", other),
    }
    assert!(matches!(
        engine.get_status(1),
        Some(VerificationRecord::Greeted { message_ref: 42 })
    ));
}

#[test]
fn greeting_refusals_name_the_state() {
    let mut engine = VerificationEngine::new();
    let stores = fresh_stores();
    engine.greeting_sent(1, 7);
    engine
        .begin_verification(&stores, Some(GUILD), 1, 7)
        .unwrap();
    match engine.send_greeting(&stores, 1).unwrap() {
        GreetStep::Refused { reason } => assert_eq!(reason, GreetRefusal::AlreadyPending),
        other => panic!("expected a refusal, got {:?}", other),
    }
    let mut stores2 = fresh_stores();
    let mut engine2 = VerificationEngine::new();
    engine2.greeting_sent(2, 8);
    engine2
        .ckey_submitted(&mut stores2, Some(GUILD), 2, "SomeKey")
        .unwrap();
    match engine2.send_greeting(&stores2, 2).unwrap() {
        GreetStep::Refused { reason } => assert_eq!(reason, GreetRefusal::AlreadyVerified),
        other => panic!("expected a refusal, got {:?}", other),
    }
    let mut engine3 = VerificationEngine::new();
    let mut stores3 = fresh_stores();
    advance_to_reject(&mut engine3, &mut stores3, 3);
    match engine3.send_greeting(&stores3, 3).unwrap() {
        GreetStep::Refused { reason } => assert_eq!(reason, GreetRefusal::AlreadyRejected),
        other => panic!("expected a refusal, got {:?}", other),
    }
}

/// Walks an identity into the rejected state with one wrong answer.
fn advance_to_reject(engine: &mut VerificationEngine, stores: &mut Stores, user: u64) {
    engine.greeting_sent(user, 9);
    engine
        .begin_verification(stores, Some(GUILD), user, 9)
        .unwrap();
    engine
        .answer_submitted(stores, Some(GUILD), user, &vec!["no".to_string()])
        .unwrap();
    match engine
        .answer_submitted(stores, Some(GUILD), user, &vec!["right".to_string()])
        .unwrap()
    {
        AnswerOutcome::Rejected { message, answers } => {
            assert_eq!(message, "nope");
            assert_eq!(answers, vec!["no".to_string(), "right".to_string()]);
        }
        other => panic!("expected a rejection, got {:?}", other),
    }
}

#[test]
fn two_question_bank_walks_to_the_ckey_prompt() {
    let mut engine = VerificationEngine::new();
    let mut stores = fresh_stores();
    advance_to_ckey_prompt(&mut engine, &mut stores, 1);
    // The record still awaits the ckey: it was not advanced past
    // `Pending` by the successful validation.
    assert!(matches!(
        engine.get_status(1),
        Some(VerificationRecord::Pending { .. })
    ));
}

#[test]
fn a_wrong_answer_rejects_after_the_last_question() {
    let mut engine = VerificationEngine::new();
    let mut stores = fresh_stores();
    advance_to_reject(&mut engine, &mut stores, 1);
    assert!(matches!(
        engine.get_status(1),
        Some(VerificationRecord::Rejected)
    ));
    // Further answers are ignored once rejected.
    assert!(matches!(
        engine
            .answer_submitted(&stores, Some(GUILD), 1, &vec!["yes".to_string()])
            .unwrap(),
        AnswerOutcome::Ignored
    ));
}

#[test]
fn stale_clicks_and_malformed_payloads_are_ignored() {
    let mut engine = VerificationEngine::new();
    let stores = fresh_stores();
    engine.greeting_sent(1, 42);
    // A click on an older greeting message is ignored.
    assert!(matches!(
        engine.begin_verification(&stores, Some(GUILD), 1, 41).unwrap(),
        BeginOutcome::Ignored
    ));
    // A click from an identity with no record is ignored.
    assert!(matches!(
        engine.begin_verification(&stores, Some(GUILD), 2, 42).unwrap(),
        BeginOutcome::Ignored
    ));
    engine.begin_verification(&stores, Some(GUILD), 1, 42).unwrap();
    // An event with anything but exactly one answer value is ignored.
    assert!(matches!(
        engine.answer_submitted(&stores, Some(GUILD), 1, &vec![]).unwrap(),
        AnswerOutcome::Ignored
    ));
    assert!(matches!(
        engine
            .answer_submitted(
                &stores,
                Some(GUILD),
                1,
                &vec!["yes".to_string(), "no".to_string()]
            )
            .unwrap(),
        AnswerOutcome::Ignored
    ));
    assert!(matches!(
        engine.get_status(1),
        Some(VerificationRecord::Pending { next_index: 0, .. })
    ));
}

#[test]
fn a_pending_index_beyond_the_bank_validates_and_rejects() {
    // A record loaded from disk may claim an index past the bank; the
    // next answer completes the questionnaire, and the short answer
    // list fails validation.
    let mut engine = VerificationEngine::new();
    let stores = fresh_stores();
    engine.greeting_sent(1, 42);
    engine.begin_verification(&stores, Some(GUILD), 1, 42).unwrap();
    let mut engine = {
        let pairs = vec![(
            1u64,
            VerificationRecord::Pending {
                answers: vec![],
                next_index: 7,
            },
        )];
        VerificationEngine::with_status(nightstation_verify::status::StatusStore::from_pairs(
            &pairs,
        ))
    };
    match engine
        .answer_submitted(&stores, Some(GUILD), 1, &vec!["yes".to_string()])
        .unwrap()
    {
        AnswerOutcome::Rejected { answers, .. } => {
            assert_eq!(answers, vec!["yes".to_string()]);
        }
        other => panic!("expected a rejection, got {:?}", other),
    }
    assert!(matches!(
        engine.get_status(1),
        Some(VerificationRecord::Rejected)
    ));
}

#[test]
fn empty_question_bank_skips_to_the_ckey_prompt() {
    let mut engine = VerificationEngine::new();
    let mut stores = fresh_stores();
    match &mut stores.config {
        Some(cfg) => cfg.questions.clear(),
        None => unreachable!(),
    }
    engine.greeting_sent(1, 42);
    match engine.begin_verification(&stores, Some(GUILD), 1, 42).unwrap() {
        BeginOutcome::AskCkey { prompt, answers } => {
            assert_eq!(prompt, "enter your ckey");
            assert!(answers.is_empty());
        }
        other => panic!("expected the ckey prompt, got {:?}", other),
    }
    // The record is still the greeting: verification completes with the
    // ckey submission.
    assert!(matches!(
        engine.get_status(1),
        Some(VerificationRecord::Greeted { message_ref: 42 })
    ));
}

#[test]
fn ckey_submission_verifies_maps_and_whitelists() {
    let mut engine = VerificationEngine::new();
    let mut stores = fresh_stores();
    advance_to_ckey_prompt(&mut engine, &mut stores, 1);
    match engine
        .ckey_submitted(&mut stores, Some(GUILD), 1, "New-Guy_7")
        .unwrap()
    {
        CkeyOutcome::Verified {
            ckey,
            role,
            message,
            status_changed,
            identity_changed,
            whitelist_added,
        } => {
            assert_eq!(ckey.as_str(), "newguy7");
            assert_eq!(role, ROLE);
            assert_eq!(message, "you are in");
            assert!(status_changed);
            assert!(identity_changed);
            assert!(whitelist_added);
        }
        other => panic!("expected verification, got {:?}", other),
    }
    assert!(matches!(
        engine.get_status(1),
        Some(VerificationRecord::Verified)
    ));
    let ist = stores.identity.as_ref().unwrap();
    assert_eq!(ist.lookup_ckey(1).unwrap().as_str(), "newguy7");
    let wl = stores.whitelist.as_ref().unwrap();
    assert_eq!(wl.list(), vec!["newguy7".to_string()]);
    // A replayed submission after the terminal state is ignored.
    assert!(matches!(
        engine
            .ckey_submitted(&mut stores, Some(GUILD), 1, "other")
            .unwrap(),
        CkeyOutcome::Ignored
    ));
}

#[test]
fn ckey_submission_is_accepted_from_the_greeted_state() {
    let mut engine = VerificationEngine::new();
    let mut stores = fresh_stores();
    engine.greeting_sent(1, 42);
    match engine
        .ckey_submitted(&mut stores, Some(GUILD), 1, "early")
        .unwrap()
    {
        CkeyOutcome::Verified { ckey, .. } => assert_eq!(ckey.as_str(), "early"),
        other => panic!("expected verification, got {:?}", other),
    }
}

#[test]
fn missing_handles_surface_as_dependency_errors() {
    let mut engine = VerificationEngine::new();
    let mut stores = fresh_stores();
    stores.config = None;
    assert_eq!(
        engine.send_greeting(&stores, 1).unwrap_err(),
        EngineError::DependencyUnavailable(StoreKind::Config)
    );

    let mut stores = fresh_stores();
    stores.identity = None;
    engine.greeting_sent(1, 42);
    assert_eq!(
        engine
            .ckey_submitted(&mut stores, Some(GUILD), 1, "someone")
            .unwrap_err(),
        EngineError::DependencyUnavailable(StoreKind::Identity)
    );
    // The record was already marked verified when the identity write
    // failed: the stores fall out of step rather than rolling back.
    assert!(matches!(
        engine.get_status(1),
        Some(VerificationRecord::Verified)
    ));

    let mut engine2 = VerificationEngine::new();
    let mut stores2 = fresh_stores();
    stores2.whitelist = None;
    engine2.greeting_sent(2, 43);
    assert_eq!(
        engine2
            .ckey_submitted(&mut stores2, Some(GUILD), 2, "someone")
            .unwrap_err(),
        EngineError::DependencyUnavailable(StoreKind::Whitelist)
    );
    assert_eq!(
        stores2
            .identity
            .as_ref()
            .unwrap()
            .lookup_ckey(2)
            .unwrap()
            .as_str(),
        "someone"
    );
}

#[test]
fn events_outside_the_active_community_are_no_ops() {
    let mut engine = VerificationEngine::new();
    let mut stores = fresh_stores();
    engine.greeting_sent(1, 42);

    assert!(matches!(
        engine.begin_verification(&stores, Some(GUILD + 1), 1, 42).unwrap(),
        BeginOutcome::Ignored
    ));
    assert!(matches!(
        engine.begin_verification(&stores, None, 1, 42).unwrap(),
        BeginOutcome::Ignored
    ));
    assert!(matches!(
        engine
            .answer_submitted(&stores, Some(GUILD + 1), 1, &vec!["yes".to_string()])
            .unwrap(),
        AnswerOutcome::Ignored
    ));
    assert!(matches!(
        engine
            .ckey_submitted(&mut stores, Some(GUILD + 1), 1, "someone")
            .unwrap(),
        CkeyOutcome::Ignored
    ));
    assert!(matches!(
        engine.on_member_join(&stores, GUILD + 1, 1).unwrap(),
        JoinOutcome::NotActive
    ));
    assert!(matches!(
        engine.on_member_ban(&mut stores, GUILD + 1, 1).unwrap(),
        BanOutcome::NotActive
    ));

    // No state moved: the greeting is still the whole story.
    assert!(matches!(
        engine.get_status(1),
        Some(VerificationRecord::Greeted { message_ref: 42 })
    ));
    assert_eq!(stores.identity.as_ref().unwrap().len(), 0);
    assert_eq!(stores.whitelist.as_ref().unwrap().len(), 0);
}
