//! The verification engine: the workflow state machine.
//!
//! The engine owns the verification-status store and reaches the
//! configuration, the identity store and the whitelist through a handle
//! registry resolved at call time; a handle that is gone yields a
//! dependency error rather than being silently ignored.
//!
//! The engine itself performs no I/O.  Each inbound event is handled by
//! one method that applies the state transition and returns an outcome
//! value describing what the embedding program must do on the chat
//! platform (send a message, render a question, grant a role).  Where a
//! platform call produces data the state machine needs — sending the
//! greeting yields the message reference that later button clicks are
//! checked against — the handler reports what to send and a completion
//! method records the result.

use vstd::prelude::*;

use crate::ckey::{normalize, Ckey};
use crate::config::{AppConfig, Question};
use crate::identity::IdentityStore;
use crate::status::{clone_strings, RecordV, StatusStore, VerificationRecord};
use crate::whitelist::{after_insert, WhitelistStore};

verus! {

/// The stores the engine holds non-owning handles to.
#[derive(Clone, Copy, Debug, PartialEq, Eq, Structural)]
pub enum StoreKind {
    Config,
    Identity,
    Whitelist,
}

/// An engine failure: a handle of the registry could no longer be
/// resolved, a configuration or lifecycle bug that is surfaced rather
/// than silently ignored.
#[derive(Clone, Copy, Debug, PartialEq, Eq, Structural)]
pub enum EngineError {
    DependencyUnavailable(StoreKind),
}

/// The handle registry: the engine's non-owning view of its sibling
/// stores, resolved at call time.  A slot that is `None` stands for a
/// store that no longer exists.
pub struct Stores {
    pub config: Option<AppConfig>,
    pub identity: Option<IdentityStore>,
    pub whitelist: Option<WhitelistStore>,
}

impl Stores {
    /// Every store that is present is well formed.
    pub open spec fn wf(&self) -> bool {
        &&& (self.config matches Some(c) ==> c.wf())
        &&& (self.identity matches Some(i) ==> i.wf())
        &&& (self.whitelist matches Some(w) ==> w.wf())
    }
}

/// Why a greeting was refused: the identity is already past that step.
/// These are expected, user-facing outcomes, not system failures.
#[derive(Clone, Copy, Debug, PartialEq, Eq, Structural)]
pub enum GreetRefusal {
    AlreadyPending,
    AlreadyVerified,
    AlreadyRejected,
}

/// What handling a greeting request amounts to.
#[derive(Debug)]
pub enum GreetStep {
    /// A greeting is already out; its message reference is returned
    /// again, so re-invocation is a no-op, not an error.
    AlreadyGreeted { message_ref: u64 },
    /// The identity is past the greeting step.
    Refused { reason: GreetRefusal },
    /// A greeting must be sent on the given channel; once the platform
    /// returns the message reference, [`VerificationEngine::greeting_sent`]
    /// records it.
    Send { channel: u64, text: String },
}

/// What handling the "begin verification" action amounts to.
#[derive(Debug)]
pub enum BeginOutcome {
    /// The action does not apply to the current record (a stale or
    /// duplicated click): the event is silently ignored.
    Ignored,
    /// The question bank is empty, so the submitted (empty) answer list
    /// already validates: prompt for the ckey.  `answers` is what was
    /// validated, for the audit log.
    AskCkey { prompt: String, answers: Vec<String> },
    /// The questionnaire starts: render the first question.
    FirstQuestion { prompt: String, options: Vec<String> },
}

/// What handling a submitted answer amounts to.
#[derive(Debug)]
pub enum AnswerOutcome {
    /// The event does not apply (no questionnaire underway, or a
    /// malformed payload): silently ignored.
    Ignored,
    /// More questions remain: render the next one.
    NextQuestion { prompt: String, options: Vec<String> },
    /// All answers are in and correct: prompt for the ckey.  `answers`
    /// is the validated list, for the audit log.
    AskCkey { prompt: String, answers: Vec<String> },
    /// All answers are in and at least one is wrong: the identity is
    /// rejected.  `answers` is the refused list, for the audit log.
    Rejected { message: String, answers: Vec<String> },
}

/// Whether the event comes from inside the configured active community.
pub open spec fn in_active_community(config: AppConfig, guild: Option<u64>) -> bool {
    guild == Some(config.active_guild_id)
}

/// Whether a record still accepts a submitted ckey: only an identity
/// that was greeted or is mid-questionnaire may complete, which guards
/// against replays after a terminal state.
pub open spec fn awaiting_ckey(record: Option<RecordV>) -> bool {
    ||| record matches Some(RecordV::Greeted { .. })
    ||| record matches Some(RecordV::Pending { .. })
}

/// Whether the submitted answers pass validation: one answer per
/// question, each equal to its question's correct candidate.
pub open spec fn answers_correct(questions: Seq<Question>, answers: Seq<Seq<char>>) -> bool {
    answers.len() == questions.len() && forall|i: int|
        0 <= i < questions.len() ==> answers[i] == (#[trigger] questions[i]).correct_text()
}

/// The validation step of the workflow: checks a submitted answer list
/// against the question bank.  The list passes exactly when it holds
/// one answer per question and each equals its question's correct
/// candidate.
pub fn check_answers(questions: &Vec<Question>, answers: &Vec<String>) -> (r: bool)
    requires
        forall|i: int| 0 <= i < questions@.len() ==> (#[trigger] questions@[i]).wf(),
    ensures
        r == answers_correct(questions@, answers.deep_view()),
{
    let n = questions.len();
    if answers.len() != n {
        proof {
            assert(answers.deep_view().len() == answers@.len());
        }
        return false;
    }
    let mut i: usize = 0;
    while i < n
        invariant
            i <= n,
            n == questions@.len(),
            n == answers@.len(),
            forall|i: int| 0 <= i < questions@.len() ==> (#[trigger] questions@[i]).wf(),
            forall|j: int|
                0 <= j < i ==> answers@[j]@ == (#[trigger] questions@[j]).correct_text(),
        decreases n - i,
    {
        let q = &questions[i];
        if !(answers[i] == q.answers[q.correct_answer]) {
            proof {
                assert(answers.deep_view()[i as int] == answers@[i as int]@);
            }
            return false;
        }
        i += 1;
    }
    proof {
        assert(forall|j: int|
            0 <= j < n ==> answers.deep_view()[j] == #[trigger] answers@[j]@);
    }
    true
}

/// What handling a submitted ckey amounts to.
#[derive(Debug)]
pub enum CkeyOutcome {
    /// The identity is not awaiting a ckey (a replay after a terminal
    /// state): silently ignored.
    Ignored,
    /// The identity is verified: grant the role, show the message, and
    /// persist whichever stores report a change.
    Verified {
        ckey: Ckey,
        role: u64,
        message: String,
        status_changed: bool,
        identity_changed: bool,
        whitelist_added: bool,
    },
}

/// What handling a member-joined event amounts to.
#[derive(Debug)]
pub enum JoinOutcome {
    /// The join happened outside the active community: a no-op.
    NotActive,
    /// A greeting must be sent; once the platform returns the message
    /// reference, [`VerificationEngine::greeting_sent`] records it.
    Greet { channel: u64, text: String },
    /// A greeting is already out; nothing to do.
    AlreadyGreeted { message_ref: u64 },
    /// The identity rejoined while verified and its mapping is intact:
    /// re-grant the role and audit "rejoin, role restored".
    RestoreRole { ckey: Ckey, role: u64 },
    /// The identity rejoined while verified but its mapping is lost: the
    /// record was reset, a fresh greeting must be sent, and the audit
    /// notes the lost mapping.
    MappingLost { channel: u64, text: String },
    /// The identity rejoined mid-questionnaire: the record was reset, a
    /// fresh greeting must be sent, and the audit notes the restart.
    RestartPending { channel: u64, text: String },
    /// The identity rejoined after a rejection: no state change, audit
    /// only.
    RejectedRejoin,
}

/// What handling a member-banned event amounts to.
#[derive(Debug)]
pub enum BanOutcome {
    /// The ban happened outside the active community: a no-op.
    NotActive,
    /// The record, if any, was removed; if a ckey mapping existed the
    /// ckey is reported (for the audit) and was removed from the
    /// whitelist if it was on it.
    Banned { record_removed: bool, ckey: Option<Ckey>, whitelist_removed: bool },
}

/// The workflow engine.
pub struct VerificationEngine {
    status: StatusStore,
}

impl VerificationEngine {
    /// The verification-status store the engine owns.
    pub closed spec fn status_store(&self) -> StatusStore {
        self.status
    }

    /// The status store is well formed.
    pub open spec fn wf(&self) -> bool {
        self.status_store().wf()
    }

    /// The per-identity records.
    pub open spec fn records(&self) -> Map<u64, RecordV> {
        self.status_store().as_map()
    }

    /// The record of one identity, or absence.
    pub open spec fn record_of(&self, identity: u64) -> Option<RecordV> {
        self.status_store().status_of(identity)
    }

    /// An engine with no records.
    pub fn new() -> (r: VerificationEngine)
        ensures
            r.wf(),
            r.records() == Map::<u64, RecordV>::empty(),
    {
        VerificationEngine { status: StatusStore::new() }
    }

    /// An engine over a status store loaded from durable storage.
    pub fn with_status(status: StatusStore) -> (r: VerificationEngine)
        requires
            status.wf(),
        ensures
            r.wf(),
            r.records() == status.as_map(),
    {
        VerificationEngine { status }
    }

    /// Administrative read of one identity's record.
    pub fn get_status(&self, identity: u64) -> (r: Option<VerificationRecord>)
        requires
            self.wf(),
        ensures
            r is Some <==> self.records().contains_key(identity),
            r is Some ==> r->0@ == self.records()[identity],
    {
        self.status.get_status(identity)
    }

    /// A snapshot of all records, for writing the durable form.
    pub fn to_pairs(&self) -> (r: Vec<(u64, VerificationRecord)>)
        ensures
            r@.len() == self.status_store().pairs().len(),
            forall|i: int|
                0 <= i < r@.len() ==> (#[trigger] r@[i]).0 == self.status_store().pairs()[i].0
                    && r@[i].1@ == self.status_store().pairs()[i].1@,
    {
        self.status.to_pairs()
    }

    /// Administrative forced removal of one identity's record, usable
    /// regardless of its state; a removal needs to be persisted.
    pub fn clear(&mut self, identity: u64) -> (removed: bool)
        requires
            old(self).wf(),
        ensures
            final(self).wf(),
            final(self).records() == old(self).records().remove(identity),
            removed == old(self).records().contains_key(identity),
    {
        self.status.remove(identity)
    }

    /// Handles a greeting request.  The record decides: no record means a
    /// greeting must go out, an existing greeting is returned again, and
    /// a record past that step refuses.  Nothing changes here; the
    /// record is written by [`VerificationEngine::greeting_sent`] once
    /// the platform has accepted the message.
    pub fn send_greeting(&self, stores: &Stores, identity: u64) -> (r: Result<
        GreetStep,
        EngineError,
    >)
        requires
            self.wf(),
            stores.wf(),
        ensures
            r is Err <==> stores.config is None,
            r is Err ==> r == Err::<GreetStep, EngineError>(
                EngineError::DependencyUnavailable(StoreKind::Config),
            ),
            (match r {
                Ok(step) => {
                    let cfg = stores.config->0;
                    match step {
                        GreetStep::AlreadyGreeted { message_ref } => self.record_of(identity)
                            == Some(RecordV::Greeted { message_ref }),
                        GreetStep::Refused { reason } => (match reason {
                            GreetRefusal::AlreadyPending => self.record_of(identity) matches Some(
                                RecordV::Pending { .. },
                            ),
                            GreetRefusal::AlreadyVerified => self.record_of(identity) == Some(
                                RecordV::Verified,
                            ),
                            GreetRefusal::AlreadyRejected => self.record_of(identity) == Some(
                                RecordV::Rejected,
                            ),
                        }),
                        GreetStep::Send { channel, text } => self.record_of(identity) is None
                            && channel == cfg.greeting_channel_id && text@
                            == cfg.messages.greeting@,
                    }
                },
                Err(_) => true,
            }),
    {
        let cfg = match &stores.config {
            Some(c) => c,
            None => {
                return Err(EngineError::DependencyUnavailable(StoreKind::Config));
            },
        };
        let status = self.status.get_status(identity);
        match status {
            Some(VerificationRecord::Greeted { message_ref }) => Ok(
                GreetStep::AlreadyGreeted { message_ref },
            ),
            Some(VerificationRecord::Pending { .. }) => Ok(
                GreetStep::Refused { reason: GreetRefusal::AlreadyPending },
            ),
            Some(VerificationRecord::Verified) => Ok(
                GreetStep::Refused { reason: GreetRefusal::AlreadyVerified },
            ),
            Some(VerificationRecord::Rejected) => Ok(
                GreetStep::Refused { reason: GreetRefusal::AlreadyRejected },
            ),
            None => Ok(
                GreetStep::Send {
                    channel: cfg.greeting_channel_id,
                    text: cfg.messages.greeting.clone(),
                },
            ),
        }
    }

    /// Records that the greeting went out under the given message
    /// reference.  Only an identity without a record can be greeted —
    /// the decision methods hand out a greeting in no other state, so
    /// records move only along the state machine's edges.  The change
    /// always needs to be persisted.
    pub fn greeting_sent(&mut self, identity: u64, message_ref: u64) -> (changed: bool)
        requires
            old(self).wf(),
            old(self).record_of(identity) is None,
        ensures
            final(self).wf(),
            final(self).records() == old(self).records().insert(
                identity,
                RecordV::Greeted { message_ref },
            ),
            changed,
    {
        self.status.set_status(identity, VerificationRecord::Greeted { message_ref })
    }

    /// Handles the "begin verification" action of a greeting message.
    /// Only a click on the recorded greeting of an identity in the
    /// `Greeted` state starts the questionnaire; stale or duplicate
    /// clicks are ignored.  With an empty question bank validation
    /// succeeds at once and the ckey prompt is shown instead.
    pub fn begin_verification(
        &mut self,
        stores: &Stores,
        guild: Option<u64>,
        identity: u64,
        message_ref: u64,
    ) -> (r: Result<BeginOutcome, EngineError>)
        requires
            old(self).wf(),
            stores.wf(),
        ensures
            final(self).wf(),
            r is Err <==> stores.config is None,
            r is Err ==> *final(self) == *old(self) && r == Err::<BeginOutcome, EngineError>(
                EngineError::DependencyUnavailable(StoreKind::Config),
            ),
            (match r {
                Ok(outcome) => {
                    let cfg = stores.config->0;
                    if !in_active_community(cfg, guild) {
                        outcome is Ignored && *final(self) == *old(self)
                    } else if old(self).record_of(identity) == Some(
                        RecordV::Greeted { message_ref },
                    ) {
                        if cfg.questions@.len() == 0 {
                            outcome matches BeginOutcome::AskCkey { prompt, answers } && prompt@
                                == cfg.ckey_prompt@ && answers@.len() == 0
                                && *final(self) == *old(self)
                        } else {
                            outcome matches BeginOutcome::FirstQuestion { prompt, options }
                                && prompt@ == cfg.questions@[0].prompt@ && options.deep_view()
                                == cfg.questions@[0].answers.deep_view() && final(self).records()
                                == old(self).records().insert(
                                identity,
                                RecordV::Pending {
                                    answers: Seq::<Seq<char>>::empty(),
                                    next_index: 0,
                                },
                            )
                        }
                    } else {
                        outcome is Ignored && *final(self) == *old(self)
                    }
                },
                Err(_) => true,
            }),
    {
        let cfg = match &stores.config {
            Some(c) => c,
            None => {
                return Err(EngineError::DependencyUnavailable(StoreKind::Config));
            },
        };
        let active = match guild {
            Some(g) => g == cfg.active_guild_id,
            None => false,
        };
        if !active {
            return Ok(BeginOutcome::Ignored);
        }
        let status = self.status.get_status(identity);
        let on_greeting = match status {
            Some(VerificationRecord::Greeted { message_ref: m }) => m == message_ref,
            _ => false,
        };
        if !on_greeting {
            return Ok(BeginOutcome::Ignored);
        }
        if cfg.questions.len() == 0 {
            return Ok(
                BeginOutcome::AskCkey { prompt: cfg.ckey_prompt.clone(), answers: Vec::new() },
            );
        }
        let q = &cfg.questions[0];
        let prompt = q.prompt.clone();
        let options = clone_strings(&q.answers);
        let fresh: Vec<String> = Vec::new();
        proof {
            assert(fresh.deep_view() =~= Seq::<Seq<char>>::empty());
        }
        self.status.set_status(
            identity,
            VerificationRecord::Pending { answers: fresh, next_index: 0 },
        );
        Ok(BeginOutcome::FirstQuestion { prompt, options })
    }

    /// Handles one submitted answer of an identity mid-questionnaire.
    /// Exactly one answer value must be present; malformed events and
    /// events for identities not in the `Pending` state are ignored.
    /// The answer is appended; when answers for the whole bank are in,
    /// they are validated, rejecting the identity on failure and
    /// prompting for the ckey on success, and otherwise the next
    /// question is rendered.
    pub fn answer_submitted(
        &mut self,
        stores: &Stores,
        guild: Option<u64>,
        identity: u64,
        values: &Vec<String>,
    ) -> (r: Result<AnswerOutcome, EngineError>)
        requires
            old(self).wf(),
            stores.wf(),
        ensures
            final(self).wf(),
            r is Err <==> stores.config is None,
            r is Err ==> *final(self) == *old(self) && r == Err::<AnswerOutcome, EngineError>(
                EngineError::DependencyUnavailable(StoreKind::Config),
            ),
            (match r {
                Ok(outcome) => {
                    let cfg = stores.config->0;
                    if !in_active_community(cfg, guild) {
                        outcome is Ignored && *final(self) == *old(self)
                    } else {
                        match old(self).record_of(identity) {
                            Some(RecordV::Pending { answers: prev, next_index }) => if values@.len()
                                != 1 {
                            outcome is Ignored && *final(self) == *old(self)
                        } else {
                            let got = prev.push(values@[0]@);
                            let qs = cfg.questions@;
                            if next_index + 1 >= qs.len() {
                                if answers_correct(qs, got) {
                                    outcome matches AnswerOutcome::AskCkey { prompt, answers }
                                        && prompt@ == cfg.ckey_prompt@ && answers.deep_view()
                                        == got && *final(self) == *old(self)
                                } else {
                                    outcome matches AnswerOutcome::Rejected { message, answers }
                                        && message@ == cfg.messages.rejected@
                                        && answers.deep_view() == got && final(self).records()
                                        == old(self).records().insert(identity, RecordV::Rejected)
                                }
                            } else {
                                outcome matches AnswerOutcome::NextQuestion { prompt, options }
                                    && prompt@ == qs[next_index + 1].prompt@ && options.deep_view()
                                    == qs[next_index + 1].answers.deep_view()
                                    && final(self).records() == old(self).records().insert(
                                    identity,
                                    RecordV::Pending { answers: got, next_index: next_index + 1 },
                                )
                            }
                        },
                            _ => outcome is Ignored && *final(self) == *old(self),
                        }
                    }
                },
                Err(_) => true,
            }),
    {
        let cfg = match &stores.config {
            Some(c) => c,
            None => {
                return Err(EngineError::DependencyUnavailable(StoreKind::Config));
            },
        };
        let active = match guild {
            Some(g) => g == cfg.active_guild_id,
            None => false,
        };
        if !active {
            return Ok(AnswerOutcome::Ignored);
        }
        let status = self.status.get_status(identity);
        let (mut form_data, form_idx) = match status {
            Some(VerificationRecord::Pending { answers, next_index }) => (answers, next_index),
            _ => {
                return Ok(AnswerOutcome::Ignored);
            },
        };
        if values.len() != 1 {
            return Ok(AnswerOutcome::Ignored);
        }
        let ghost prev = form_data.deep_view();
        form_data.push(values[0].clone());
        proof {
            assert(form_data.deep_view() =~= prev.push(values@[0]@));
        }
        let qlen = cfg.questions.len();
        let done = form_idx >= qlen || form_idx + 1 >= qlen;
        if done {
            if check_answers(&cfg.questions, &form_data) {
                Ok(AnswerOutcome::AskCkey { prompt: cfg.ckey_prompt.clone(), answers: form_data })
            } else {
                self.status.set_status(identity, VerificationRecord::Rejected);
                Ok(
                    AnswerOutcome::Rejected {
                        message: cfg.messages.rejected.clone(),
                        answers: form_data,
                    },
                )
            }
        } else {
            let next = form_idx + 1;
            let q = &cfg.questions[next];
            let prompt = q.prompt.clone();
            let options = clone_strings(&q.answers);
            self.status.set_status(
                identity,
                VerificationRecord::Pending { answers: form_data, next_index: next },
            );
            Ok(AnswerOutcome::NextQuestion { prompt, options })
        }
    }

    /// Handles the submitted ckey of an identity that was greeted or is
    /// mid-questionnaire.  The raw text is normalized, the record is
    /// marked verified, the identity mapping and the whitelist entry are
    /// written, and the caller must grant the role and show the
    /// verified message.  The record is marked verified before the
    /// sibling stores are written, so a missing handle surfaces after
    /// the record change, exactly as the stores fall out of step when a
    /// write fails midway.
    pub fn ckey_submitted(
        &mut self,
        stores: &mut Stores,
        guild: Option<u64>,
        identity: u64,
        raw_ckey: &str,
    ) -> (r: Result<CkeyOutcome, EngineError>)
        requires
            old(self).wf(),
            old(stores).wf(),
        ensures
            final(self).wf(),
            final(stores).wf(),
            final(stores).config == old(stores).config,
            (match old(stores).config {
                None => r == Err::<CkeyOutcome, EngineError>(
                    EngineError::DependencyUnavailable(StoreKind::Config),
                ) && *final(self) == *old(self) && *final(stores) == *old(stores),
                Some(cfg) => {
                    if !in_active_community(cfg, guild) || !awaiting_ckey(
                        old(self).record_of(identity),
                    ) {
                        r matches Ok(CkeyOutcome::Ignored) && *final(self) == *old(self)
                            && *final(stores) == *old(stores)
                    } else {
                        let ck = normalize(raw_ckey@);
                        &&& final(self).records() == old(self).records().insert(
                            identity,
                            RecordV::Verified,
                        )
                        &&& (match old(stores).identity {
                            None => r == Err::<CkeyOutcome, EngineError>(
                                EngineError::DependencyUnavailable(StoreKind::Identity),
                            ) && final(stores).identity is None && final(stores).whitelist
                                == old(stores).whitelist,
                            Some(ist) => {
                                &&& final(stores).identity matches Some(fist) && fist.as_map()
                                    == ist.as_map().insert(identity, ck)
                                &&& (match old(stores).whitelist {
                                    None => r == Err::<CkeyOutcome, EngineError>(
                                        EngineError::DependencyUnavailable(StoreKind::Whitelist),
                                    ) && final(stores).whitelist is None,
                                    Some(wl) => {
                                        &&& final(stores).whitelist matches Some(fwl)
                                            && fwl.views() == after_insert(wl.views(), ck)
                                        &&& r matches Ok(
                                            CkeyOutcome::Verified {
                                                ckey,
                                                role,
                                                message,
                                                status_changed,
                                                identity_changed,
                                                whitelist_added,
                                            },
                                        ) && ckey@ == ck && role == cfg.verified_role_id
                                            && message@ == cfg.messages.verified@
                                            && status_changed
                                            && identity_changed == !(ist.as_map().contains_key(
                                            identity,
                                        ) && ist.as_map()[identity] == ck)
                                            && whitelist_added == !crate::whitelist::entry_in(
                                            wl.views(),
                                            ck,
                                        )
                                    },
                                })
                            },
                        })
                    }
                },
            }),
    {
        let (active_id, role, message) = match &stores.config {
            None => {
                return Err(EngineError::DependencyUnavailable(StoreKind::Config));
            },
            Some(cfg) => (cfg.active_guild_id, cfg.verified_role_id, cfg.messages.verified.clone()),
        };
        let active = match guild {
            Some(g) => g == active_id,
            None => false,
        };
        if !active {
            return Ok(CkeyOutcome::Ignored);
        }
        let status = self.status.get_status(identity);
        let eligible = match status {
            Some(VerificationRecord::Greeted { .. }) => true,
            Some(VerificationRecord::Pending { .. }) => true,
            _ => false,
        };
        if !eligible {
            return Ok(CkeyOutcome::Ignored);
        }
        let ck = Ckey::new(raw_ckey);
        let status_changed = self.status.set_status(identity, VerificationRecord::Verified);
        let ident_taken = stores.identity.take();
        match ident_taken {
            None => Err(EngineError::DependencyUnavailable(StoreKind::Identity)),
            Some(mut ist) => {
                let identity_changed = ist.insert(identity, &ck);
                stores.identity = Some(ist);
                let wl_taken = stores.whitelist.take();
                match wl_taken {
                    None => Err(EngineError::DependencyUnavailable(StoreKind::Whitelist)),
                    Some(mut wl) => {
                        let whitelist_added = wl.insert(&ck);
                        stores.whitelist = Some(wl);
                        Ok(
                            CkeyOutcome::Verified {
                                ckey: ck,
                                role,
                                message,
                                status_changed,
                                identity_changed,
                                whitelist_added,
                            },
                        )
                    },
                }
            },
        }
    }

    /// Handles a member joining.  Joins outside the active community are
    /// ignored.  A fresh identity is greeted; one already greeted gets
    /// nothing new; one mid-questionnaire is reset and re-greeted; a
    /// verified one keeps its record and role if its mapping is intact
    /// and is otherwise reset and re-greeted; a rejected one is noted
    /// without any state change.
    pub fn on_member_join(&mut self, stores: &Stores, guild: u64, identity: u64) -> (r: Result<
        JoinOutcome,
        EngineError,
    >)
        requires
            old(self).wf(),
            stores.wf(),
        ensures
            final(self).wf(),
            (match stores.config {
                None => r == Err::<JoinOutcome, EngineError>(
                    EngineError::DependencyUnavailable(StoreKind::Config),
                ) && *final(self) == *old(self),
                Some(cfg) => {
                    if guild != cfg.active_guild_id {
                        r matches Ok(JoinOutcome::NotActive) && *final(self) == *old(self)
                    } else {
                        match old(self).record_of(identity) {
                            None => r matches Ok(JoinOutcome::Greet { channel, text }) && channel
                                == cfg.greeting_channel_id && text@ == cfg.messages.greeting@
                                && *final(self) == *old(self),
                            Some(RecordV::Greeted { message_ref }) => r matches Ok(
                                JoinOutcome::AlreadyGreeted { message_ref: m },
                            ) && m == message_ref && *final(self) == *old(self),
                            Some(RecordV::Pending { .. }) => r matches Ok(
                                JoinOutcome::RestartPending { channel, text },
                            ) && channel == cfg.greeting_channel_id && text@
                                == cfg.messages.greeting@ && final(self).records()
                                == old(self).records().remove(identity),
                            Some(RecordV::Verified) => (match stores.identity {
                                None => r == Err::<JoinOutcome, EngineError>(
                                    EngineError::DependencyUnavailable(StoreKind::Identity),
                                ) && *final(self) == *old(self),
                                Some(ist) => {
                                    if ist.as_map().contains_key(identity) {
                                        r matches Ok(JoinOutcome::RestoreRole { ckey, role })
                                            && ckey@ == normalize(ist.as_map()[identity]) && role
                                            == cfg.verified_role_id && *final(self) == *old(self)
                                    } else {
                                        r matches Ok(JoinOutcome::MappingLost { channel, text })
                                            && channel == cfg.greeting_channel_id && text@
                                            == cfg.messages.greeting@ && final(self).records()
                                            == old(self).records().remove(identity)
                                    }
                                },
                            }),
                            Some(RecordV::Rejected) => r matches Ok(JoinOutcome::RejectedRejoin)
                                && *final(self) == *old(self),
                        }
                    }
                },
            }),
    {
        let cfg = match &stores.config {
            None => {
                return Err(EngineError::DependencyUnavailable(StoreKind::Config));
            },
            Some(c) => c,
        };
        if guild != cfg.active_guild_id {
            return Ok(JoinOutcome::NotActive);
        }
        let status = self.status.get_status(identity);
        match status {
            None => Ok(
                JoinOutcome::Greet {
                    channel: cfg.greeting_channel_id,
                    text: cfg.messages.greeting.clone(),
                },
            ),
            Some(VerificationRecord::Greeted { message_ref }) => Ok(
                JoinOutcome::AlreadyGreeted { message_ref },
            ),
            Some(VerificationRecord::Pending { .. }) => {
                self.status.remove(identity);
                Ok(
                    JoinOutcome::RestartPending {
                        channel: cfg.greeting_channel_id,
                        text: cfg.messages.greeting.clone(),
                    },
                )
            },
            Some(VerificationRecord::Verified) => {
                let ist = match &stores.identity {
                    None => {
                        return Err(EngineError::DependencyUnavailable(StoreKind::Identity));
                    },
                    Some(i) => i,
                };
                match ist.lookup_ckey(identity) {
                    Some(ck) => Ok(JoinOutcome::RestoreRole { ckey: ck, role: cfg.verified_role_id }),
                    None => {
                        self.status.remove(identity);
                        Ok(
                            JoinOutcome::MappingLost {
                                channel: cfg.greeting_channel_id,
                                text: cfg.messages.greeting.clone(),
                            },
                        )
                    },
                }
            },
            Some(VerificationRecord::Rejected) => Ok(JoinOutcome::RejectedRejoin),
        }
    }

    /// Handles a member ban.  Bans outside the active community are
    /// ignored.  The record is removed unconditionally; if a ckey
    /// mapping exists the ckey leaves the whitelist too, while the
    /// mapping itself is kept.
    pub fn on_member_ban(&mut self, stores: &mut Stores, guild: u64, identity: u64) -> (r: Result<
        BanOutcome,
        EngineError,
    >)
        requires
            old(self).wf(),
            old(stores).wf(),
        ensures
            final(self).wf(),
            final(stores).wf(),
            final(stores).config == old(stores).config,
            final(stores).identity == old(stores).identity,
            (match old(stores).config {
                None => r == Err::<BanOutcome, EngineError>(
                    EngineError::DependencyUnavailable(StoreKind::Config),
                ) && *final(self) == *old(self) && *final(stores) == *old(stores),
                Some(cfg) => {
                    if guild != cfg.active_guild_id {
                        r matches Ok(BanOutcome::NotActive) && *final(self) == *old(self)
                            && *final(stores) == *old(stores)
                    } else {
                        &&& final(self).records() == old(self).records().remove(identity)
                        &&& (match old(stores).identity {
                            None => r == Err::<BanOutcome, EngineError>(
                                EngineError::DependencyUnavailable(StoreKind::Identity),
                            ) && final(stores).whitelist == old(stores).whitelist,
                            Some(ist) => {
                                if ist.as_map().contains_key(identity) {
                                    let ck = normalize(ist.as_map()[identity]);
                                    match old(stores).whitelist {
                                        None => r == Err::<BanOutcome, EngineError>(
                                            EngineError::DependencyUnavailable(
                                                StoreKind::Whitelist,
                                            ),
                                        ) && final(stores).whitelist is None,
                                        Some(wl) => {
                                            &&& final(stores).whitelist matches Some(fwl) && (
                                            forall|v: Seq<char>|
                                                #[trigger] fwl.spec_contains(v) <==> (
                                                wl.spec_contains(v) && v != ck))
                                            &&& r matches Ok(
                                                BanOutcome::Banned {
                                                    record_removed,
                                                    ckey,
                                                    whitelist_removed,
                                                },
                                            ) && record_removed
                                                == old(self).records().contains_key(identity)
                                                && (ckey matches Some(c) && c@ == ck)
                                                && whitelist_removed == wl.spec_contains(ck)
                                        },
                                    }
                                } else {
                                    r matches Ok(
                                        BanOutcome::Banned {
                                            record_removed,
                                            ckey,
                                            whitelist_removed,
                                        },
                                    ) && record_removed == old(self).records().contains_key(
                                        identity,
                                    ) && ckey is None && !whitelist_removed
                                        && final(stores).whitelist == old(stores).whitelist
                                }
                            },
                        })
                    }
                },
            }),
    {
        let active_id = match &stores.config {
            None => {
                return Err(EngineError::DependencyUnavailable(StoreKind::Config));
            },
            Some(cfg) => cfg.active_guild_id,
        };
        if guild != active_id {
            return Ok(BanOutcome::NotActive);
        }
        let record_removed = self.status.remove(identity);
        let ck_opt = match &stores.identity {
            None => {
                return Err(EngineError::DependencyUnavailable(StoreKind::Identity));
            },
            Some(ist) => ist.lookup_ckey(identity),
        };
        match ck_opt {
            Some(ck) => {
                let wl_taken = stores.whitelist.take();
                match wl_taken {
                    None => Err(EngineError::DependencyUnavailable(StoreKind::Whitelist)),
                    Some(mut wl) => {
                        let whitelist_removed = wl.remove(&ck);
                        stores.whitelist = Some(wl);
                        Ok(BanOutcome::Banned { record_removed, ckey: Some(ck), whitelist_removed })
                    },
                }
            },
            None => Ok(BanOutcome::Banned { record_removed, ckey: None, whitelist_removed: false }),
        }
    }
}

} // verus!
