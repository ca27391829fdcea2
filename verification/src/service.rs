//! Interactive chat over the endpoints of a registry: who may do what, when a
//! session starts, resumes or is refused, and what its agent is given.

use vstd::prelude::*;
use vstd::string::StringExecFns;
use vstd::utf8::encode_utf8;

use crate::bridge::glob::ToolFilter;
use crate::bridge::registry::{admitted, registry_tools, Endpoint, RegistryTool};
use crate::convert::{json_opt, opt_json};
use crate::ids::{name_based, Uuid, NAMESPACE_OID};
use crate::json::{obj_of, object_of, pairs_view, Json, JsonView};
use crate::manager::SessionManager;
use crate::model::{reason_data, reason_json, ChatSession, ChatSessionView};
use crate::session_loop::{InitialPrompt, SessionSpec, Transition};
use crate::state::{lifecycle, lifecycle_names, lifecycle_of, CoreState, StateModel};
use crate::store::sessions_view;
use crate::text::{decimal, text_is_empty, join, joined, opt_str, text_before, text_eq};
use crate::text::{text_is_before, texts, to_decimal, to_owned_opt};
use crate::time::Duration;
use crate::tools::{slots_view, NameSessionTool, NewMessage, PinConfig, PinTool, SetPhaseTool};
use crate::validation::approval::{decision_name, ApprovalDecision, ApprovalPolicy, GuardRole};
use crate::validation::approval::TimeoutAction;
use crate::validation::ToolRisk;

verus! {

// ── Configuration ────────────────────────────────────────────────────

/// The user of a chat, resolved afresh for every start and resume.
#[derive(Debug, Clone)]
pub struct ChatUserCtx {
    pub email: String,
    pub is_admin: bool,
}

/// Settings of the service.
#[derive(Debug, Clone)]
pub struct ChatServiceConfig {
    /// Tokens that a session may use. 0 for no limit.
    pub token_budget: u64,
    /// Risk from which on a human is asked: "mutating", "destructive", or
    /// "never".
    pub risk_threshold: String,
    /// Whether a grant for the whole session is offered and accepted.
    pub allow_approve_all: bool,
    /// How many agents may run for a user at the same time.
    pub max_active_sessions_per_user: u32,
    /// Minutes that a session waits for the user before it parks.
    pub idle_park_minutes: u64,
    /// Patterns of tool names that are offered; none for all.
    pub tools_include: Vec<String>,
    /// Patterns of tool names that are not offered.
    pub tools_exclude: Vec<String>,
    /// Model that guards tool calls.
    pub validator_provider: Option<String>,
    pub validator_model: Option<String>,
}

impl Default for ChatServiceConfig {
    fn default() -> (r: ChatServiceConfig)
        ensures
            r.token_budget == 500_000,
            r.risk_threshold@ == "mutating"@,
            r.allow_approve_all,
            r.max_active_sessions_per_user == 3,
            r.idle_park_minutes == 30,
            r.tools_include@.len() == 0,
            r.tools_exclude@.len() == 0,
            r.validator_provider is None,
            r.validator_model is None,
    {
        ChatServiceConfig {
            token_budget: 500_000,
            risk_threshold: "mutating".to_owned(),
            allow_approve_all: true,
            max_active_sessions_per_user: 3,
            idle_park_minutes: 30,
            tools_include: Vec::new(),
            tools_exclude: Vec::new(),
            validator_provider: None,
            validator_model: None,
        }
    }
}

/// When a human is asked about tool calls, and how. Nothing where nobody is to
/// be asked; any threshold that is not known counts as the lower one.
pub fn approval_policy(cfg: &ChatServiceConfig) -> (r: Option<ApprovalPolicy>)
    ensures
        r == if cfg.risk_threshold@ == "never"@ {
            None
        } else {
            Some(
                ApprovalPolicy {
                    gate_threshold: if cfg.risk_threshold@ == "destructive"@ {
                        ToolRisk::Destructive
                    } else {
                        ToolRisk::Mutating
                    },
                    guard_role: GuardRole::Advises,
                    timeout: Duration { secs: 900, nanos: 0 },
                    on_timeout: TimeoutAction::Deny,
                    allow_approve_all: cfg.allow_approve_all,
                },
            )
        },
{
    if text_eq(cfg.risk_threshold.as_str(), "never") {
        return None;
    }
    let threshold = if text_eq(cfg.risk_threshold.as_str(), "destructive") {
        ToolRisk::Destructive
    } else {
        ToolRisk::Mutating
    };
    Some(
        ApprovalPolicy {
            gate_threshold: threshold,
            guard_role: GuardRole::Advises,
            timeout: Duration::from_secs(15 * 60),
            on_timeout: TimeoutAction::Deny,
            allow_approve_all: cfg.allow_approve_all,
        },
    )
}

// ── States ───────────────────────────────────────────────────────────

/// The phases that the agent of a chat moves between.
pub const CHAT_PHASES: [&'static str; 3] = ["planning", "executing", "executed"];

/// Whether a name is that of a phase.
pub open spec fn is_phase(name: Seq<char>) -> bool {
    name == "planning"@ || name == "executing"@ || name == "executed"@
}

/// State model of chat sessions: the common lifecycle, and the phases that an
/// agent works through.
#[derive(Debug, Clone, Copy)]
pub struct ChatStateModel;

impl Default for ChatStateModel {
    fn default() -> (r: ChatStateModel)
        ensures
            r == ChatStateModel,
    {
        ChatStateModel
    }
}

impl StateModel for ChatStateModel {
    open spec fn core_of(&self, state: Seq<char>) -> CoreState {
        if is_phase(state) {
            CoreState::Running
        } else {
            lifecycle(state)
        }
    }

    open spec fn allowed(&self, name: Seq<char>) -> Option<Seq<char>> {
        if is_phase(name) {
            Some(name)
        } else {
            None
        }
    }

    open spec fn running_name(&self) -> Seq<char> {
        "planning"@
    }

    open spec fn dead_names(&self) -> Seq<Seq<char>> {
        seq!["completed"@, "failed"@, "cancelled"@, "needs_attention"@]
    }

    open spec fn approval_name(&self) -> Seq<char> {
        "awaiting_approval"@
    }

    fn core_state(&self, state: &str) -> (r: CoreState) {
        if text_eq(state, "planning") || text_eq(state, "executing") || text_eq(
            state,
            "executed",
        ) {
            CoreState::Running
        } else {
            lifecycle_of(state)
        }
    }

    fn agent_allowed(&self, name: &str) -> (r: Option<String>) {
        if text_eq(name, "planning") || text_eq(name, "executing") || text_eq(name, "executed") {
            Some(name.to_owned())
        } else {
            None
        }
    }

    fn initial_running_state(&self) -> (r: &'static str) {
        "planning"
    }

    fn non_resumable_states(&self) -> (r: Vec<&'static str>) {
        let mut out: Vec<&'static str> = Vec::new();
        out.push("completed");
        out.push("failed");
        out.push("cancelled");
        out.push("needs_attention");
        out
    }

    fn approval_state(&self) -> (r: &'static str) {
        "awaiting_approval"
    }
}

/// The names of the phases are those of no other state, and a session in a
/// phase is at work.
pub proof fn chat_states_are_classified(state: Seq<char>)
    ensures
        is_phase(state) ==> ChatStateModel.core_of(state).active(),
        ChatStateModel.core_of(ChatStateModel.running_name()).active(),
        ChatStateModel.allowed(state) matches Some(s) ==> ChatStateModel.core_of(s).active(),
        ChatStateModel.core_of("completed"@) == CoreState::Completed,
        ChatStateModel.core_of("failed"@) == CoreState::Failed,
        ChatStateModel.core_of("cancelled"@) == CoreState::Cancelled,
        ChatStateModel.core_of("paused"@) == CoreState::Paused,
        ChatStateModel.core_of("needs_attention"@) == CoreState::NeedsAttention,
        ChatStateModel.core_of("awaiting_retry"@) == CoreState::AwaitingRetry,
        ChatStateModel.core_of("awaiting_approval"@) == CoreState::AwaitingApproval,
        ChatStateModel.core_of("created"@) == CoreState::Created,
        ChatStateModel.core_of("initializing"@) == CoreState::Initializing,
        ChatStateModel.core_of("running"@) == CoreState::Running,
{
    lifecycle_names();
    reveal_strlit("planning");
    reveal_strlit("executing");
    reveal_strlit("executed");
    reveal_strlit("completed");
    reveal_strlit("failed");
    reveal_strlit("cancelled");
    reveal_strlit("paused");
    reveal_strlit("needs_attention");
    reveal_strlit("awaiting_retry");
    reveal_strlit("awaiting_approval");
    reveal_strlit("created");
    reveal_strlit("initializing");
    reveal_strlit("running");
    assert("planning"@[0] == 'p' && "planning"@[1] == 'l');
    assert("executing"@[0] == 'e' && "executed"@[0] == 'e');
    assert("completed"@[0] == 'c' && "failed"@[0] == 'f' && "cancelled"@[0] == 'c');
    assert("paused"@[1] == 'a' && "needs_attention"@[0] == 'n' && "awaiting_retry"@[0] == 'a');
    assert("awaiting_approval"@[0] == 'a' && "created"@[0] == 'c' && "initializing"@[0] == 'i');
    assert("running"@[0] == 'r');
}

/// A chat session with a known state does not resume by itself exactly where
/// it is over.
pub proof fn chat_model_resumes(state: Seq<char>)
    requires
        ChatStateModel.core_of(state) is Failed ==> state == "failed"@,
    ensures
        ChatStateModel.dead_names().contains(state) <==> ChatStateModel.core_of(
            state,
        ).terminal(),
{
    chat_states_are_classified(state);
    let dead = ChatStateModel.dead_names();
    assert(dead[0] == "completed"@ && dead[1] == "failed"@ && dead[2] == "cancelled"@ && dead[3]
        == "needs_attention"@);
}

// ── Errors ───────────────────────────────────────────────────────────

/// Why the service refuses a request.
#[derive(Debug)]
pub enum ServiceError {
    SessionNotFound,
    AccessDenied,
    /// As many agents run for the user as may; how many do.
    TooManySessions(u32),
    /// The session is over; its state.
    NotResumable(String),
    BudgetExhausted,
}

impl ServiceError {
    /// The message of the error.
    pub open spec fn text(self) -> Seq<char> {
        match self {
            ServiceError::SessionNotFound => "session not found"@,
            ServiceError::AccessDenied => "access denied"@,
            ServiceError::TooManySessions(n) => "too many active chat sessions ("@ + decimal(
                n as nat,
            ) + "); close or pause one first"@,
            ServiceError::NotResumable(state) => "session is in state '"@ + state@
                + "' and cannot be resumed"@,
            ServiceError::BudgetExhausted => {
                "session hit its token budget — extend the budget before continuing"@
            },
        }
    }

    /// The message of the error.
    pub fn message(&self) -> (r: String)
        ensures
            r@ == self.text(),
            match self {
                ServiceError::SessionNotFound => r@ == "session not found"@,
                ServiceError::AccessDenied => r@ == "access denied"@,
                ServiceError::TooManySessions(n) => r@ == "too many active chat sessions ("@
                    + decimal(*n as nat) + "); close or pause one first"@,
                ServiceError::NotResumable(state) => r@ == "session is in state '"@ + state@
                    + "' and cannot be resumed"@,
                ServiceError::BudgetExhausted => r@
                    == "session hit its token budget — extend the budget before continuing"@,
            },
    {
        match self {
            ServiceError::SessionNotFound => "session not found".to_owned(),
            ServiceError::AccessDenied => "access denied".to_owned(),
            ServiceError::TooManySessions(n) => {
                let mut s = "too many active chat sessions (".to_owned();
                s.append(to_decimal(*n as u64).as_str());
                s.append("); close or pause one first");
                s
            },
            ServiceError::NotResumable(state) => {
                let mut s = "session is in state '".to_owned();
                s.append(state.as_str());
                s.append("' and cannot be resumed");
                s
            },
            ServiceError::BudgetExhausted => {
                "session hit its token budget — extend the budget before continuing".to_owned()
            },
        }
    }
}

// ── Access ───────────────────────────────────────────────────────────

/// The scope that the sessions of a user are grouped under.
pub open spec fn scope_of(email: Seq<char>) -> Uuid {
    Uuid { bits: name_based(NAMESPACE_OID, encode_utf8(email)) }
}

/// The scope that the sessions of a user are grouped under: always the same
/// for the same address.
pub fn scope_for(email: &str) -> (r: Uuid)
    ensures
        r == scope_of(email@),
        r.bits == name_based(0x6ba7b812_9dad_11d1_80b4_00c04fd430c8, encode_utf8(email@)),
{
    Uuid::new_v5(&Uuid { bits: NAMESPACE_OID }, email.as_bytes())
}

/// Hands out a session to its owner, or to an admin.
pub fn get_session_checked(user: &ChatUserCtx, found: Option<ChatSession>) -> (r: Result<
    ChatSession,
    ServiceError,
>)
    ensures
        match found {
            None => r matches Err(e) && e is SessionNotFound,
            Some(sess) => if user.is_admin || sess.subject@ == user.email@ {
                r == Ok::<ChatSession, ServiceError>(sess)
            } else {
                r matches Err(e) && e is AccessDenied
            },
        },
{
    match found {
        None => Err(ServiceError::SessionNotFound),
        Some(sess) => {
            if !user.is_admin && !text_eq(sess.subject.as_str(), user.email.as_str()) {
                Err(ServiceError::AccessDenied)
            } else {
                Ok(sess)
            }
        },
    }
}

// ── Sweeping at startup ──────────────────────────────────────────────

/// How a session that a restart has interrupted is parked. It resumes with the
/// next message of its user.
pub fn restart_transition() -> (r: Transition)
    ensures
        r.is("paused"@, false, reason_data("server_restart"@)),
        r.state@ == "paused"@,
        !r.terminal,
        r.data.view().get("reason"@) == Some(JsonView::String("server_restart"@)),
{
    Transition {
        state: "paused".to_owned(),
        terminal: false,
        data: reason_json("server_restart"),
    }
}

/// The sessions that a restart has interrupted and that are not paused yet.
pub open spec fn interrupted(sessions: Seq<ChatSessionView>) -> Seq<Uuid> {
    sessions.filter(|s: ChatSessionView| s.state != "paused"@).map_values(
        |s: ChatSessionView| s.id,
    )
}

/// The sessions that are to be paused after a restart, of those that could be
/// resumed. One that is paused already is left alone: pausing it again would
/// record the change again at every restart.
pub fn sessions_to_pause(sessions: &Vec<ChatSession>) -> (r: Vec<Uuid>)
    ensures
        r@ == interrupted(sessions_view(sessions@)),
{
    let ghost keeps = |s: ChatSessionView| s.state != "paused"@;
    let ghost id_of = |s: ChatSessionView| s.id;
    let ghost all = sessions_view(sessions@);
    let mut out: Vec<Uuid> = Vec::new();
    let mut i: usize = 0;
    proof {
        reveal(Seq::filter);
        assert(out@ =~= all.take(0).filter(keeps).map_values(id_of));
    }
    while i < sessions.len()
        invariant
            i <= sessions@.len(),
            all == sessions_view(sessions@),
            keeps == (|s: ChatSessionView| s.state != "paused"@),
            id_of == (|s: ChatSessionView| s.id),
            out@ == all.take(i as int).filter(keeps).map_values(id_of),
        decreases sessions.len() - i,
    {
        let s = &sessions[i];
        let ghost kept = all.take(i as int).filter(keeps);
        proof {
            reveal(Seq::filter);
            assert(all.take(i + 1).drop_last() =~= all.take(i as int));
            assert(all.take(i + 1).last() == s@);
            assert(kept.push(s@).map_values(id_of) =~= kept.map_values(id_of).push(s.id));
        }
        if !text_eq(s.state.as_str(), "paused") {
            out.push(s.id);
        }
        i = i + 1;
    }
    proof {
        assert(all.take(i as int) =~= all);
    }
    out
}

/// Once all sessions are paused, a further restart pauses none.
pub proof fn sweeping_again_does_nothing(sessions: Seq<ChatSessionView>)
    requires
        forall|i: int| 0 <= i < sessions.len() ==> (#[trigger] sessions[i]).state == "paused"@,
    ensures
        interrupted(sessions).len() == 0,
    decreases sessions.len(),
{
    reveal(Seq::filter);
    if sessions.len() > 0 {
        let front = sessions.drop_last();
        assert forall|i: int| 0 <= i < front.len() implies (#[trigger] front[i]).state
            == "paused"@ by {
            assert(sessions[i].state == "paused"@);
        }
        sweeping_again_does_nothing(front);
        assert(sessions[sessions.len() - 1].state == "paused"@);
    }
}

// ── Starting and resuming ────────────────────────────────────────────

/// A turn of the user with the page that the user looks at in front.
pub open spec fn in_context(page_context: Option<Seq<char>>, text: Seq<char>) -> Seq<char> {
    match page_context {
        Some(ctx) => if ctx.len() > 0 {
            "[context: user is viewing "@ + ctx + "]\n\n"@ + text
        } else {
            text
        },
        None => text,
    }
}

/// Puts the page that the user looks at in front of a turn.
pub fn prefix_context(page_context: Option<&str>, text: &str) -> (r: String)
    ensures
        r@ == in_context(opt_str(page_context), text@),
{
    match page_context {
        Some(ctx) => {
            if text_is_empty(ctx) {
                return text.to_owned();
            }
            let mut s = "[context: user is viewing ".to_owned();
            s.append(ctx);
            s.append("]\n\n");
            s.append(text);
            s
        },
        None => text.to_owned(),
    }
}

/// How many of the sessions have a running agent.
pub open spec fn running_among(
    sessions: Seq<ChatSessionView>,
    running: Map<u128, crate::manager::EntryView>,
) -> nat
    decreases sessions.len(),
{
    if sessions.len() == 0 {
        0
    } else {
        running_among(sessions.drop_last(), running) + if running.dom().contains(
            sessions.last().id.bits,
        ) {
            1nat
        } else {
            0nat
        }
    }
}

/// How many of the sessions have a running agent.
pub fn running_count(sessions: &Vec<ChatSession>, manager: &SessionManager) -> (r: u32)
    requires
        sessions@.len() <= u32::MAX,
    ensures
        r == running_among(sessions_view(sessions@), manager@.running),
{
    let ghost all = sessions_view(sessions@);
    let mut n: u32 = 0;
    let mut i: usize = 0;
    while i < sessions.len()
        invariant
            i <= sessions@.len(),
            sessions@.len() <= u32::MAX,
            all == sessions_view(sessions@),
            n <= i,
            n == running_among(all.take(i as int), manager@.running),
        decreases sessions.len() - i,
    {
        proof {
            assert(all.take(i + 1).drop_last() =~= all.take(i as int));
            assert(all.take(i + 1).last() == sessions@[i as int]@);
        }
        if manager.is_running(sessions[i].id) {
            n = n + 1;
        }
        i = i + 1;
    }
    proof {
        assert(all.take(i as int) =~= all);
    }
    n
}

/// What a new session is created with.
#[derive(Debug)]
pub struct StartPlan {
    pub scope_id: Uuid,
    /// The owner of the session, and who creates it.
    pub owner: String,
    pub initial_context: Json,
    pub state_data: Json,
    /// The tokens that the session may use, where there is a limit.
    pub token_budget: Option<u64>,
    pub initial_prompt: InitialPrompt,
    pub start_state: String,
}

/// The data that a session starts with.
pub open spec fn start_data(email: Seq<char>, page_context: Option<Seq<char>>) -> JsonView {
    JsonView::Object(
        obj_of(
            seq![
                ("owner"@, JsonView::String(email)),
                ("page_context"@, json_opt(page_context)),
            ],
        ),
    )
}

/// Starts a session with the first message of its user, unless as many agents
/// run for the user as may.
pub fn start_session(
    cfg: &ChatServiceConfig,
    user: &ChatUserCtx,
    running: u32,
    first_message: &str,
    page_context: Option<&str>,
) -> (r: Result<StartPlan, ServiceError>)
    ensures
        if running >= cfg.max_active_sessions_per_user {
            r matches Err(e) && e == ServiceError::TooManySessions(running)
        } else {
            &&& r matches Ok(plan)
            &&& plan.scope_id == scope_of(user.email@)
            &&& plan.owner@ == user.email@
            &&& plan.initial_context.view() == JsonView::Object(Seq::empty())
            &&& plan.state_data.view() == start_data(user.email@, opt_str(page_context))
            &&& plan.token_budget == if cfg.token_budget > 0 {
                Some(cfg.token_budget)
            } else {
                None
            }
            &&& plan.initial_prompt matches InitialPrompt::User(prompt) && prompt@ == in_context(
                opt_str(page_context),
                first_message@,
            )
            &&& plan.start_state@ == "planning"@
        },
{
    if running >= cfg.max_active_sessions_per_user {
        return Err(ServiceError::TooManySessions(running));
    }
    let page = to_owned_opt(page_context);
    let mut pairs: Vec<(String, Json)> = Vec::new();
    pairs.push(("owner".to_owned(), Json::text(user.email.as_str())));
    pairs.push(("page_context".to_owned(), opt_json(&page)));
    proof {
        assert(pairs_view(pairs@) =~= seq![
            ("owner"@, JsonView::String(user.email@)),
            ("page_context"@, json_opt(opt_str(page_context))),
        ]);
    }
    Ok(
        StartPlan {
            scope_id: scope_for(user.email.as_str()),
            owner: user.email.clone(),
            initial_context: Json::Object(crate::json::Object::new()),
            state_data: Json::Object(object_of(pairs)),
            token_budget: if cfg.token_budget > 0 {
                Some(cfg.token_budget)
            } else {
                None
            },
            initial_prompt: InitialPrompt::User(prefix_context(page_context, first_message)),
            start_state: "planning".to_owned(),
        },
    )
}

/// Whether a session was paused because its tokens were used up.
pub open spec fn paused_over_budget(sess: ChatSessionView) -> bool {
    sess.state == "paused"@ && sess.state_data.get("reason"@) == Some(
        JsonView::String("token_budget_exceeded"@),
    )
}

/// Whether a session was paused because its tokens were used up, so that its
/// budget decides whether it resumes.
pub fn needs_budget(sess: &ChatSession) -> (r: bool)
    ensures
        r == paused_over_budget(sess@),
        r == (sess.state@ == "paused"@ && sess.state_data.view().get("reason"@) == Some(
            JsonView::String("token_budget_exceeded"@),
        )),
{
    if !text_eq(sess.state.as_str(), "paused") {
        return false;
    }
    match sess.state_data.get("reason") {
        Some(v) => match v.as_str() {
            Some(s) => text_eq(s, "token_budget_exceeded"),
            None => false,
        },
        None => false,
    }
}

/// Resumes a session for which no agent runs: gives the state that it resumes
/// in. A session that was completed resumes; one that is over otherwise does
/// not. One whose tokens are used up needs a larger budget first. The budget
/// and the usage count only where the session was paused over them.
pub fn resume_state(sess: &ChatSession, budget: u64, used: u64) -> (r: Result<
    String,
    ServiceError,
>)
    ensures
        if ChatStateModel.core_of(sess.state@).terminal() && sess.state@ != "completed"@ {
            r matches Err(ServiceError::NotResumable(state)) && state@ == sess.state@
        } else if paused_over_budget(sess@) && budget > 0 && used >= budget {
            r matches Err(e) && e is BudgetExhausted
        } else {
            r matches Ok(state) && state@ == if ChatStateModel.core_of(sess.state@).active() {
                sess.state@
            } else {
                "planning"@
            }
        },
{
    let model = ChatStateModel;
    let state = sess.state.as_str();
    if model.is_terminal(state) && !text_eq(state, "completed") {
        return Err(ServiceError::NotResumable(sess.state.clone()));
    }
    if needs_budget(sess) && budget > 0 && used >= budget {
        return Err(ServiceError::BudgetExhausted);
    }
    if model.is_active(state) {
        Ok(sess.state.clone())
    } else {
        Ok("planning".to_owned())
    }
}

/// What becomes of a message of the user.
#[derive(Debug)]
pub enum Delivery {
    /// It is queued for the running agent.
    Queued,
    /// The session is resumed with it, in a state and with its model.
    Resume { prompt: String, state: String, provider: Option<String>, model: Option<String> },
}

/// Delivers a message of the user to a session: to the running agent where it
/// could be queued, or by resuming the session with it.
pub fn send_message(
    sess: &ChatSession,
    text: &str,
    page_context: Option<&str>,
    queued: bool,
    budget: u64,
    used: u64,
) -> (r: Result<Delivery, ServiceError>)
    ensures
        if queued {
            r matches Ok(d) && d is Queued
        } else if ChatStateModel.core_of(sess.state@).terminal() && sess.state@ != "completed"@ {
            r matches Err(ServiceError::NotResumable(state)) && state@ == sess.state@
        } else if paused_over_budget(sess@) && budget > 0 && used >= budget {
            r matches Err(e) && e is BudgetExhausted
        } else {
            &&& r matches Ok(Delivery::Resume { prompt, state, provider, model })
            &&& prompt@ == in_context(opt_str(page_context), text@)
            &&& state@ == if ChatStateModel.core_of(sess.state@).active() {
                sess.state@
            } else {
                "planning"@
            }
            &&& provider == sess.provider
            &&& model == sess.model
        },
{
    if queued {
        return Ok(Delivery::Queued);
    }
    match resume_state(sess, budget, used) {
        Err(e) => Err(e),
        Ok(state) => Ok(
            Delivery::Resume {
                prompt: prefix_context(page_context, text),
                state,
                provider: sess.provider.clone(),
                model: sess.model.clone(),
            },
        ),
    }
}

/// A session that resumes is at work afterwards.
pub proof fn resumed_sessions_are_at_work(state: Seq<char>)
    ensures
        ChatStateModel.core_of(
            if ChatStateModel.core_of(state).active() {
                state
            } else {
                "planning"@
            },
        ).active(),
{
    chat_states_are_classified(state);
}

/// The tokens that a session may use once its budget was extended.
pub const EXTENDED_BUDGET: u64 = 1_000_000;

// ── Approvals ────────────────────────────────────────────────────────

/// What the record of a decision carries.
pub open spec fn decision_metadata(
    approval_id: Uuid,
    decision: ApprovalDecision,
    by: Seq<char>,
) -> JsonView {
    JsonView::Object(
        obj_of(
            seq![
                ("approval_id"@, JsonView::String(approval_id.text())),
                ("decision"@, JsonView::String(decision_name(decision))),
                ("by"@, JsonView::String(by)),
            ],
        ),
    )
}

/// The message that records a decision, before the decision is delivered.
pub fn decision_record(
    user: &ChatUserCtx,
    approval_id: Uuid,
    decision: &ApprovalDecision,
) -> (r: NewMessage)
    ensures
        r.holds(
            "approval_decision"@,
            decision_name(*decision) + " by "@ + user.email@,
            Some(decision_metadata(approval_id, *decision, user.email@)),
        ),
        r.role@ == "approval_decision"@,
        r.content@ == (match decision {
            ApprovalDecision::Approve => "approved"@,
            ApprovalDecision::ApproveAllForSession => "approved_all"@,
            ApprovalDecision::Deny { .. } => "denied"@,
        }) + " by "@ + user.email@,
        r.metadata matches Some(m) && m.view().get("by"@) == Some(
            JsonView::String(user.email@),
        ) && m.view().get("approval_id"@) == Some(JsonView::String(approval_id.text())),
{
    proof {
        decisions_are_recorded_whole(approval_id, *decision, user.email@);
    }
    let mut content = decision.as_str().to_owned();
    content.append(" by ");
    content.append(user.email.as_str());
    let mut pairs: Vec<(String, Json)> = Vec::new();
    pairs.push(("approval_id".to_owned(), Json::String(approval_id.to_text())));
    pairs.push(("decision".to_owned(), Json::text(decision.as_str())));
    pairs.push(("by".to_owned(), Json::text(user.email.as_str())));
    proof {
        assert(pairs_view(pairs@) =~= seq![
            ("approval_id"@, JsonView::String(approval_id.text())),
            ("decision"@, JsonView::String(decision_name(*decision))),
            ("by"@, JsonView::String(user.email@)),
        ]);
    }
    NewMessage {
        role: "approval_decision".to_owned(),
        content,
        metadata: Some(Json::Object(object_of(pairs))),
    }
}

/// Whether the standing grant of a session is given; not where no agent runs.
pub fn auto_approve(manager: &SessionManager, session_id: Uuid) -> (r: bool)
    requires
        manager@.wf(),
    ensures
        r == (manager@.runs(session_id)
            && manager@.running[session_id.bits].broker.approve_all),
{
    match manager.approve_all(session_id) {
        Some(v) => v,
        None => false,
    }
}

// ── What an agent is given ───────────────────────────────────────────

/// How many bytes of output a tool call hands to the agent.
pub const MAX_TOOL_OUTPUT: usize = 16 * 1024;

/// How often the agent of a chat may go round in a turn.
pub const LOOP_LIMIT: usize = 50;

/// What the agent is told about its phases.
pub fn set_phase_description() -> (r: &'static str)
    ensures
        r@ == "Track your progress. Phases: planning (deciding what to do),          executing (running tools / making changes), executed (the current          request is done). Call this when you move between phases."@,
{
    "Track your progress. Phases: planning (deciding what to do),          executing (running tools / making changes), executed (the current          request is done). Call this when you move between phases."
}

/// The tools of a chat, each with its risk.
pub struct ChatTools {
    /// One for each endpoint that is offered.
    pub registry: Vec<RegistryTool>,
    pub pin: (PinTool, ToolRisk),
    pub name_session: (NameSessionTool, ToolRisk),
    /// Phases are bookkeeping: changing them is asked of nobody.
    pub set_phase: (SetPhaseTool<ChatStateModel>, ToolRisk),
}

/// The tools that the agent of a chat is given: those of the endpoints that
/// the configuration offers, and its own.
pub fn session_tools(cfg: &ChatServiceConfig, endpoints: &Vec<Endpoint>) -> (r: ChatTools)
    ensures
        ({
            let filter = ToolFilter { includes: cfg.tools_include, excludes: cfg.tools_exclude };
            let offered = admitted(endpoints@, filter);
            &&& r.registry@.len() == offered.len()
            &&& forall|i: int|
                0 <= i < r.registry@.len() ==> (#[trigger] r.registry@[i]).is_of(
                    offered[i],
                    MAX_TOOL_OUTPUT,
                )
        }),
        r.pin.0.cfg.allow_arbitrary,
        slots_view(r.pin.0.cfg.slots@) == seq![
            ("notes"@, "Pin durable findings or context worth keeping visible."@),
            ("plan"@, "Pin your working plan before making changes."@),
            ("summary"@, "Pin a summary of what was accomplished."@),
        ],
        r.pin.1 == ToolRisk::SessionLocal,
        r.name_session.1 == ToolRisk::SessionLocal,
        r.set_phase.0.auto_approve,
        r.set_phase.0.approval_gated_phase is None,
        r.set_phase.0.valid_phases@ == joined(
            seq!["planning"@, "executing"@, "executed"@],
            ", "@,
        ),
        r.set_phase.1 == ToolRisk::SessionLocal,
{
    let filter = ToolFilter {
        includes: copy_texts(&cfg.tools_include),
        excludes: copy_texts(&cfg.tools_exclude),
    };
    let registry = registry_tools(endpoints, &filter, MAX_TOOL_OUTPUT);
    let mut phases: Vec<String> = Vec::new();
    phases.push(CHAT_PHASES[0].to_owned());
    phases.push(CHAT_PHASES[1].to_owned());
    phases.push(CHAT_PHASES[2].to_owned());
    proof {
        assert(texts(phases@) =~= seq!["planning"@, "executing"@, "executed"@]);
        let given = ToolFilter { includes: cfg.tools_include, excludes: cfg.tools_exclude };
        assert((|ep: Endpoint| filter.admits(ep.tool_name@)) =~= (|ep: Endpoint|
            given.admits(ep.tool_name@)));
    }
    let (set_phase, _) = SetPhaseTool::new_with_risk(ChatStateModel, true, None, &phases);
    ChatTools {
        registry,
        pin: PinTool::new_with_risk(PinConfig::chat()),
        name_session: NameSessionTool::new_with_risk(),
        set_phase: (set_phase, ToolRisk::SessionLocal),
    }
}

/// Copies strings.
fn copy_texts(v: &Vec<String>) -> (r: Vec<String>)
    ensures
        r@ == v@,
{
    let mut out: Vec<String> = Vec::new();
    let mut i: usize = 0;
    while i < v.len()
        invariant
            i <= v@.len(),
            out@ == v@.take(i as int),
        decreases v.len() - i,
    {
        out.push(v[i].clone());
        i = i + 1;
        proof {
            assert(v@.take(i as int) =~= v@.take(i - 1).push(v@[i - 1]));
        }
    }
    proof {
        assert(v@.take(i as int) =~= v@);
    }
    out
}

/// What the run of a chat needs to know.
pub fn build_session_spec(
    cfg: &ChatServiceConfig,
    session_id: Uuid,
    system_prompt: String,
    initial_prompt: InitialPrompt,
    start_state: String,
) -> (r: SessionSpec)
    requires
        cfg.idle_park_minutes <= u64::MAX / 60,
    ensures
        r.session_id == session_id,
        r.system_prompt@ == system_prompt@,
        r.initial_prompt == initial_prompt,
        r.start_state@ == start_state@,
        r.interactive,
        r.idle_timeout == Some(
            Duration {
                secs: (if cfg.idle_park_minutes >= 1 {
                    cfg.idle_park_minutes * 60
                } else {
                    60
                }) as u64,
                nanos: 0,
            },
        ),
        r.deadline is None,
        r.deadline_reason@.len() == 0,
        r.loop_limit == LOOP_LIMIT,
{
    let minutes: u64 = if cfg.idle_park_minutes >= 1 {
        cfg.idle_park_minutes
    } else {
        1
    };
    SessionSpec {
        session_id,
        system_prompt,
        initial_prompt,
        start_state,
        interactive: true,
        idle_timeout: Some(Duration::from_secs(minutes * 60)),
        deadline: None,
        deadline_reason: String::new(),
        loop_limit: LOOP_LIMIT,
    }
}

// ── The index of tools ───────────────────────────────────────────────

/// Names in ascending order with one more, unless it is there.
pub open spec fn with_name(sorted: Seq<Seq<char>>, name: Seq<char>) -> Seq<Seq<char>>
    decreases sorted.len(),
{
    if sorted.len() == 0 {
        seq![name]
    } else if sorted.last() == name {
        sorted
    } else if text_before(sorted.last(), name) {
        sorted.push(name)
    } else {
        with_name(sorted.drop_last(), name).push(sorted.last())
    }
}

/// The resources of endpoints, each once, in ascending order.
pub open spec fn resources(endpoints: Seq<Endpoint>) -> Seq<Seq<char>>
    decreases endpoints.len(),
{
    if endpoints.len() == 0 {
        Seq::empty()
    } else {
        with_name(resources(endpoints.drop_last()), endpoints.last().resource@)
    }
}

/// The tools of a resource, in the order of its endpoints.
pub open spec fn tools_of(endpoints: Seq<Endpoint>, resource: Seq<char>) -> Seq<Seq<char>>
    decreases endpoints.len(),
{
    if endpoints.len() == 0 {
        Seq::empty()
    } else if endpoints.last().resource@ == resource {
        tools_of(endpoints.drop_last(), resource).push(endpoints.last().tool_name@)
    } else {
        tools_of(endpoints.drop_last(), resource)
    }
}

/// The line of a resource: its name, and its tools.
pub open spec fn index_line(endpoints: Seq<Endpoint>, resource: Seq<char>) -> Seq<char> {
    "- "@ + resource + ": "@ + joined(tools_of(endpoints, resource), ", "@)
}

/// Puts a name in its place among names in ascending order, unless it is
/// there.
fn add_name(sorted: &mut Vec<String>, name: &str)
    ensures
        texts(final(sorted)@) == with_name(texts(old(sorted)@), name@),
{
    let ghost before = texts(sorted@);
    let mut at: usize = sorted.len();
    proof {
        assert(before.take(at as int) =~= before);
        assert(with_name(before, name@) =~= with_name(before.take(at as int), name@)
            + before.skip(at as int));
    }
    while at > 0
        invariant
            at <= sorted@.len(),
            before == texts(old(sorted)@),
            sorted@ == old(sorted)@,
            with_name(before, name@) == with_name(before.take(at as int), name@) + before.skip(
                at as int,
            ),
        decreases at,
    {
        let ghost head = before.take(at as int);
        proof {
            assert(head.drop_last() =~= before.take(at - 1));
            assert(head.last() == sorted@[at - 1]@);
        }
        if text_eq(sorted[at - 1].as_str(), name) {
            proof {
                assert(head + before.skip(at as int) =~= before);
            }
            return;
        }
        if text_is_before(sorted[at - 1].as_str(), name) {
            sorted.insert(at, name.to_owned());
            proof {
                assert(texts(sorted@) =~= head.push(name@) + before.skip(at as int));
            }
            return;
        }
        proof {
            assert(before.skip(at - 1) =~= seq![before[at - 1]] + before.skip(at as int));
            assert(with_name(before, name@) =~= with_name(before.take(at - 1), name@)
                + before.skip(at - 1));
        }
        at = at - 1;
    }
    sorted.insert(0, name.to_owned());
    proof {
        assert(before.take(0) =~= Seq::<Seq<char>>::empty());
        assert(texts(sorted@) =~= seq![name@] + before.skip(0));
    }
}

/// The tools of a resource, in the order of its endpoints.
fn collect_tools(endpoints: &Vec<Endpoint>, resource: &str) -> (r: Vec<String>)
    ensures
        texts(r@) == tools_of(endpoints@, resource@),
{
    let mut out: Vec<String> = Vec::new();
    let mut i: usize = 0;
    proof {
        assert(texts(out@) =~= tools_of(endpoints@.take(0), resource@));
    }
    while i < endpoints.len()
        invariant
            i <= endpoints@.len(),
            texts(out@) == tools_of(endpoints@.take(i as int), resource@),
        decreases endpoints.len() - i,
    {
        let ghost before = out@;
        proof {
            assert(endpoints@.take(i + 1).drop_last() =~= endpoints@.take(i as int));
        }
        if text_eq(endpoints[i].resource.as_str(), resource) {
            out.push(endpoints[i].tool_name.clone());
            proof {
                assert(texts(out@) =~= texts(before).push(endpoints@[i as int].tool_name@));
            }
        }
        i = i + 1;
    }
    proof {
        assert(endpoints@.take(i as int) =~= endpoints@);
    }
    out
}

/// One line for each resource of the registry, with its tools.
pub fn tool_index(endpoints: &Vec<Endpoint>) -> (r: String)
    ensures
        r@ == joined(
            resources(endpoints@).map_values(|res: Seq<char>| index_line(endpoints@, res)),
            "\n"@,
        ),
{
    let mut names: Vec<String> = Vec::new();
    let mut i: usize = 0;
    proof {
        assert(texts(names@) =~= resources(endpoints@.take(0)));
    }
    while i < endpoints.len()
        invariant
            i <= endpoints@.len(),
            texts(names@) == resources(endpoints@.take(i as int)),
        decreases endpoints.len() - i,
    {
        proof {
            assert(endpoints@.take(i + 1).drop_last() =~= endpoints@.take(i as int));
        }
        add_name(&mut names, endpoints[i].resource.as_str());
        i = i + 1;
    }
    proof {
        assert(endpoints@.take(i as int) =~= endpoints@);
    }
    let mut lines: Vec<String> = Vec::new();
    let mut j: usize = 0;
    while j < names.len()
        invariant
            j <= names@.len(),
            lines@.len() == j,
            forall|k: int|
                0 <= k < j ==> (#[trigger] lines@[k])@ == index_line(endpoints@, names@[k]@),
        decreases names.len() - j,
    {
        let mut line = "- ".to_owned();
        line.append(names[j].as_str());
        line.append(": ");
        let tools = collect_tools(endpoints, names[j].as_str());
        line.append(join(tools.as_slice(), ", ").as_str());
        lines.push(line);
        j = j + 1;
    }
    proof {
        assert(texts(lines@) =~= resources(endpoints@).map_values(
            |res: Seq<char>| index_line(endpoints@, res),
        ));
    }
    join(lines.as_slice(), "\n")
}

/// Whether names stand in ascending order, each once.
pub open spec fn names_ascend(v: Seq<Seq<char>>) -> bool {
    forall|i: int, j: int|
        0 <= i < j < v.len() ==> text_before(#[trigger] v[i], #[trigger] v[j])
}

/// A name that is put in its place leaves names in order, and comes in
/// without any other.
proof fn with_name_is_sorted(sorted: Seq<Seq<char>>, name: Seq<char>)
    requires
        names_ascend(sorted),
    ensures
        names_ascend(with_name(sorted, name)),
        forall|s: Seq<char>| #[trigger]
            with_name(sorted, name).contains(s) <==> sorted.contains(s) || s == name,
    decreases sorted.len(),
{
    let r = with_name(sorted, name);
    if sorted.len() == 0 {
        assert(r[0] == name);
    } else {
        let last = sorted.last();
        let front = sorted.drop_last();
        assert(sorted =~= front.push(last));
        if last == name {
            assert(sorted[sorted.len() - 1] == name);
        } else if text_before(last, name) {
            assert forall|i: int, j: int| 0 <= i < j < r.len() implies text_before(
                #[trigger] r[i],
                #[trigger] r[j],
            ) by {
                if j == sorted.len() && i < sorted.len() - 1 {
                    crate::text::text_before_transitive(sorted[i], last, name);
                }
            }
            assert forall|s: Seq<char>| #[trigger]
                r.contains(s) <==> sorted.contains(s) || s == name by {
                if sorted.contains(s) {
                    let k = choose|k: int| 0 <= k < sorted.len() && sorted[k] == s;
                    assert(r[k] == s);
                }
                assert(r[sorted.len() as int] == name);
                if r.contains(s) && s != name {
                    let k = choose|k: int| 0 <= k < r.len() && r[k] == s;
                    assert(sorted[k] == s);
                }
            }
        } else {
            crate::text::text_before_total(last, name);
            with_name_is_sorted(front, name);
            let part = with_name(front, name);
            assert forall|i: int| 0 <= i < part.len() implies text_before(
                #[trigger] part[i],
                last,
            ) by {
                assert(part.contains(part[i]));
                if part[i] != name {
                    let k = choose|k: int| 0 <= k < front.len() && front[k] == part[i];
                    assert(text_before(sorted[k], sorted[sorted.len() - 1]));
                }
            }
            assert forall|i: int, j: int| 0 <= i < j < r.len() implies text_before(
                #[trigger] r[i],
                #[trigger] r[j],
            ) by {
                assert(r[i] == part[i]);
                if j < part.len() {
                    assert(r[j] == part[j]);
                }
            }
            assert forall|s: Seq<char>| #[trigger]
                r.contains(s) <==> sorted.contains(s) || s == name by {
                if r.contains(s) {
                    let k = choose|k: int| 0 <= k < r.len() && r[k] == s;
                    if k < part.len() {
                        assert(part[k] == s);
                        assert(part.contains(s));
                        if s != name {
                            let m = choose|m: int| 0 <= m < front.len() && front[m] == s;
                            assert(sorted[m] == s);
                        }
                    } else {
                        assert(sorted[sorted.len() - 1] == s);
                    }
                }
                if sorted.contains(s) || s == name {
                    if s == last {
                        assert(r[part.len() as int] == s);
                    } else {
                        if s != name {
                            let m = choose|m: int| 0 <= m < sorted.len() && sorted[m] == s;
                            assert(front[m] == s);
                        }
                        assert(part.contains(s));
                        let k = choose|k: int| 0 <= k < part.len() && part[k] == s;
                        assert(r[k] == s);
                    }
                }
            }
        }
    }
}

/// The index has a line for every resource, each once and in ascending order.
pub proof fn index_covers_every_resource(endpoints: Seq<Endpoint>)
    ensures
        names_ascend(resources(endpoints)),
        forall|i: int|
            0 <= i < endpoints.len() ==> resources(endpoints).contains(
                (#[trigger] endpoints[i]).resource@,
            ),
    decreases endpoints.len(),
{
    if endpoints.len() > 0 {
        let front = endpoints.drop_last();
        index_covers_every_resource(front);
        with_name_is_sorted(resources(front), endpoints.last().resource@);
        assert forall|i: int| 0 <= i < endpoints.len() implies resources(endpoints).contains(
            (#[trigger] endpoints[i]).resource@,
        ) by {
            if i < front.len() {
                assert(endpoints[i] == front[i]);
            }
        }
    }
}

// ── What the service does ────────────────────────────────────────────

/// The record of a decision gives the approval, what was decided, and who
/// decided.
pub proof fn decisions_are_recorded_whole(
    approval_id: Uuid,
    decision: ApprovalDecision,
    by: Seq<char>,
)
    ensures
        ({
            let m = decision_metadata(approval_id, decision, by);
            &&& m.get("approval_id"@) == Some(JsonView::String(approval_id.text()))
            &&& decision is Approve ==> m.get("decision"@) == Some(JsonView::String("approved"@))
            &&& decision is ApproveAllForSession ==> m.get("decision"@) == Some(
                JsonView::String("approved_all"@),
            )
            &&& decision is Deny ==> m.get("decision"@) == Some(JsonView::String("denied"@))
            &&& m.get("by"@) == Some(JsonView::String(by))
        }),
{
    let pairs = seq![
        ("approval_id"@, JsonView::String(approval_id.text())),
        ("decision"@, JsonView::String(decision_name(decision))),
        ("by"@, JsonView::String(by)),
    ];
    reveal_strlit("approval_id");
    reveal_strlit("decision");
    reveal_strlit("by");
    assert("approval_id"@.len() == 11 && "decision"@.len() == 8 && "by"@.len() == 2);
    crate::json::obj_of_at(pairs, 0);
    crate::json::obj_of_at(pairs, 1);
    crate::json::obj_of_at(pairs, 2);
}

/// A session starts with who owns it and which page its user looks at, or null
/// where that is not known.
pub proof fn sessions_start_with_their_owner(
    email: Seq<char>,
    page_context: Option<Seq<char>>,
    key: Seq<char>,
)
    ensures
        start_data(email, page_context).get("owner"@) == Some(JsonView::String(email)),
        page_context is None ==> start_data(email, page_context).get("page_context"@) == Some(
            JsonView::Null,
        ),
        page_context matches Some(page) ==> start_data(email, page_context).get("page_context"@)
            == Some(JsonView::String(page)),
        key != "owner"@ && key != "page_context"@ ==> start_data(email, page_context).get(
            key,
        ) is None,
{
    let pairs = seq![
        ("owner"@, JsonView::String(email)),
        ("page_context"@, json_opt(page_context)),
    ];
    reveal_strlit("owner");
    reveal_strlit("page_context");
    assert("owner"@.len() == 5 && "page_context"@.len() == 12);
    crate::json::obj_of_at(pairs, 0);
    crate::json::obj_of_at(pairs, 1);
    if key != "owner"@ && key != "page_context"@ {
        crate::json::obj_of_lacks(pairs, key);
    }
}

/// A turn ends with what the user says; in front of it stands the page that the
/// user looks at, where there is one.
pub proof fn turns_end_with_what_is_said(page: Seq<char>, text: Seq<char>)
    ensures
        in_context(None, text) == text,
        page.len() == 0 ==> in_context(Some(page), text) == text,
        page.len() > 0 ==> in_context(Some(page), text) == "[context: user is viewing "@ + page
            + "]\n\n"@ + text,
{
}

/// A session was paused over its budget exactly where it is paused and the
/// reason that its data give is that its tokens are used up.
pub proof fn paused_over_budget_by_state_and_reason(sess: ChatSessionView)
    ensures
        paused_over_budget(sess) <==> sess.state == "paused"@ && sess.state_data.get("reason"@)
            == Some(JsonView::String("token_budget_exceeded"@)),
{
}

/// What a run is paused with over its budget makes the session one that was
/// paused over its budget.
pub proof fn runs_over_budget_need_a_budget(
    sess: ChatSessionView,
    used: u64,
    limit: u64,
    deadline_reason: Seq<char>,
)
    requires
        crate::session_loop::final_state(
            crate::session_loop::StopReason::BudgetExceeded { used, limit },
            deadline_reason,
        ) matches Some((state, _, data)) && sess.state == state && sess.state_data == data,
    ensures
        paused_over_budget(sess),
{
    crate::session_loop::budgets_are_reported(used, limit, deadline_reason);
}

/// The sessions that a restart pauses are those that are not paused, each under
/// its identifier and in their order.
pub proof fn interrupted_sessions_are_those_not_paused(
    sessions: Seq<ChatSessionView>,
    last: ChatSessionView,
)
    ensures
        interrupted(Seq::empty()).len() == 0,
        last.state == "paused"@ ==> interrupted(sessions.push(last)) == interrupted(sessions),
        last.state != "paused"@ ==> interrupted(sessions.push(last)) == interrupted(sessions).push(
            last.id,
        ),
{
    reveal(Seq::filter);
    let keeps = |s: ChatSessionView| s.state != "paused"@;
    let id_of = |s: ChatSessionView| s.id;
    let all = sessions.push(last);
    assert(all.drop_last() =~= sessions);
    assert(all.last() == last);
    let kept = sessions.filter(keeps);
    assert(kept.push(last).map_values(id_of) =~= kept.map_values(id_of).push(last.id));
    assert(interrupted(all) =~= all.filter(keeps).map_values(id_of));
}

/// Each session with a running agent counts once.
pub proof fn running_sessions_count_once(
    sessions: Seq<ChatSessionView>,
    last: ChatSessionView,
    running: Map<u128, crate::manager::EntryView>,
)
    ensures
        running_among(Seq::empty(), running) == 0,
        running.dom().contains(last.id.bits) ==> running_among(sessions.push(last), running)
            == running_among(sessions, running) + 1,
        !running.dom().contains(last.id.bits) ==> running_among(sessions.push(last), running)
            == running_among(sessions, running),
{
    assert(sessions.push(last).drop_last() =~= sessions);
}

/// The resources of endpoints are those that some endpoint belongs to, and no
/// others.
pub proof fn resources_are_those_of_endpoints(endpoints: Seq<Endpoint>, resource: Seq<char>)
    ensures
        resources(endpoints).contains(resource) <==> exists|i: int|
            0 <= i < endpoints.len() && (#[trigger] endpoints[i]).resource@ == resource,
    decreases endpoints.len(),
{
    index_covers_every_resource(endpoints);
    if resources(endpoints).contains(resource) {
        if endpoints.len() > 0 {
            let front = endpoints.drop_last();
            let n = endpoints.len() - 1;
            index_covers_every_resource(front);
            with_name_is_sorted(resources(front), endpoints.last().resource@);
            if endpoints[n].resource@ != resource {
                assert(resources(front).contains(resource));
                resources_are_those_of_endpoints(front, resource);
                let i = choose|i: int|
                    0 <= i < front.len() && (#[trigger] front[i]).resource@ == resource;
                assert(endpoints[i].resource@ == resource);
            }
        }
    }
}

/// The tools of a resource are those of its endpoints, in their order.
pub proof fn tools_belong_to_their_resource(
    endpoints: Seq<Endpoint>,
    last: Endpoint,
    resource: Seq<char>,
)
    ensures
        tools_of(Seq::empty(), resource).len() == 0,
        last.resource@ == resource ==> tools_of(endpoints.push(last), resource) == tools_of(
            endpoints,
            resource,
        ).push(last.tool_name@),
        last.resource@ != resource ==> tools_of(endpoints.push(last), resource) == tools_of(
            endpoints,
            resource,
        ),
{
    assert(endpoints.push(last).drop_last() =~= endpoints);
}

/// The line of a resource gives its name, and its tools with commas between.
pub proof fn index_lines_name_the_tools(endpoints: Seq<Endpoint>, resource: Seq<char>)
    ensures
        index_line(endpoints, resource) == "- "@ + resource + ": "@ + joined(
            tools_of(endpoints, resource),
            ", "@,
        ),
{
}

/// A chat has the phases of planning, executing and having executed, and its
/// agent may move to a phase under its own name, and to nothing else.
pub proof fn agents_move_between_phases(name: Seq<char>)
    ensures
        is_phase(name) <==> name == "planning"@ || name == "executing"@ || name == "executed"@,
        is_phase(name) ==> ChatStateModel.allowed(name) == Some(name),
        !is_phase(name) ==> ChatStateModel.allowed(name) is None,
        ChatStateModel.running_name() == "planning"@,
        ChatStateModel.approval_name() == "awaiting_approval"@,
        ChatStateModel.dead_names() == seq![
            "completed"@,
            "failed"@,
            "cancelled"@,
            "needs_attention"@,
        ],
        !is_phase(name) ==> ChatStateModel.core_of(name) == lifecycle(name),
{
}

/// The limits of the service.
pub proof fn limits_of_the_service()
    ensures
        EXTENDED_BUDGET == 1_000_000,
        MAX_TOOL_OUTPUT == 16_384,
        LOOP_LIMIT == 50,
        NAMESPACE_OID == 0x6ba7b812_9dad_11d1_80b4_00c04fd430c8,
{
}

/// The resources of endpoints stand in ascending order, each once.
pub proof fn resources_stand_in_order(endpoints: Seq<Endpoint>, i: int, j: int)
    requires
        0 <= i < j < resources(endpoints).len(),
    ensures
        text_before(resources(endpoints)[i], resources(endpoints)[j]),
{
    index_covers_every_resource(endpoints);
}

}
