//! Shared types of the long-running execution protocol: the lifecycle stage
//! of an execution, the names under which stages are stored, and the text
//! helpers the other modules use to compare stored names.

use vstd::prelude::*;

verus! {

/// Current stage of a long-running execution.
#[derive(Debug, Clone, Copy, PartialEq, Eq, Structural)]
pub enum ExecutionStage {
    Starting,
    Running,
    Checkpointing,
    Paused,
    Resuming,
    Completing,
    Failed,
    Reaped,
}

/// The lowercase name under which a stage is stored and serialized.
pub open spec fn stage_name(stage: ExecutionStage) -> Seq<char> {
    match stage {
        ExecutionStage::Starting => "starting"@,
        ExecutionStage::Running => "running"@,
        ExecutionStage::Checkpointing => "checkpointing"@,
        ExecutionStage::Paused => "paused"@,
        ExecutionStage::Resuming => "resuming"@,
        ExecutionStage::Completing => "completing"@,
        ExecutionStage::Failed => "failed"@,
        ExecutionStage::Reaped => "reaped"@,
    }
}

/// The stage whose stored name is `text`, if any.
pub open spec fn stage_named(text: Seq<char>) -> Option<ExecutionStage> {
    if text == "starting"@ {
        Some(ExecutionStage::Starting)
    } else if text == "running"@ {
        Some(ExecutionStage::Running)
    } else if text == "checkpointing"@ {
        Some(ExecutionStage::Checkpointing)
    } else if text == "paused"@ {
        Some(ExecutionStage::Paused)
    } else if text == "resuming"@ {
        Some(ExecutionStage::Resuming)
    } else if text == "completing"@ {
        Some(ExecutionStage::Completing)
    } else if text == "failed"@ {
        Some(ExecutionStage::Failed)
    } else if text == "reaped"@ {
        Some(ExecutionStage::Reaped)
    } else {
        None
    }
}

/// A stage after which nothing more happens to an execution.
pub open spec fn stage_is_terminal(stage: ExecutionStage) -> bool {
    stage == ExecutionStage::Completing || stage == ExecutionStage::Failed || stage
        == ExecutionStage::Reaped
}

/// A stored stage text that names a terminal stage. Any other text,
/// including text that names no stage at all, is not terminal.
pub open spec fn terminal_text(text: Seq<char>) -> bool {
    text == "completing"@ || text == "failed"@ || text == "reaped"@
}

/// Compares two pieces of text character by character.
pub fn same_text(a: &str, b: &str) -> (r: bool)
    ensures
        r == (a@ == b@),
{
    let x: String = a.to_owned();
    let y: String = b.to_owned();
    x == y
}

impl ExecutionStage {
    /// The stored name of this stage.
    pub fn as_str(&self) -> (s: &'static str)
        ensures
            s@ == stage_name(*self),
    {
        match self {
            ExecutionStage::Starting => "starting",
            ExecutionStage::Running => "running",
            ExecutionStage::Checkpointing => "checkpointing",
            ExecutionStage::Paused => "paused",
            ExecutionStage::Resuming => "resuming",
            ExecutionStage::Completing => "completing",
            ExecutionStage::Failed => "failed",
            ExecutionStage::Reaped => "reaped",
        }
    }

    /// Reads a stored stage name; `None` for any text that names no stage.
    pub fn parse(s: &str) -> (r: Option<ExecutionStage>)
        ensures
            r == stage_named(s@),
    {
        if same_text(s, "starting") {
            Some(ExecutionStage::Starting)
        } else if same_text(s, "running") {
            Some(ExecutionStage::Running)
        } else if same_text(s, "checkpointing") {
            Some(ExecutionStage::Checkpointing)
        } else if same_text(s, "paused") {
            Some(ExecutionStage::Paused)
        } else if same_text(s, "resuming") {
            Some(ExecutionStage::Resuming)
        } else if same_text(s, "completing") {
            Some(ExecutionStage::Completing)
        } else if same_text(s, "failed") {
            Some(ExecutionStage::Failed)
        } else if same_text(s, "reaped") {
            Some(ExecutionStage::Reaped)
        } else {
            None
        }
    }

    /// Completing, failed and reaped executions are finished.
    pub fn is_terminal(&self) -> (b: bool)
        ensures
            b == stage_is_terminal(*self),
    {
        match self {
            ExecutionStage::Completing | ExecutionStage::Failed | ExecutionStage::Reaped => true,
            _ => false,
        }
    }

    /// The stage's name as an owned string (what the stage displays as).
    pub fn to_string(&self) -> (s: String)
        ensures
            s@ == stage_name(*self),
    {
        String::from_str(self.as_str())
    }
}

/// Reads a stored stage, falling back to `Running` for text that names no
/// stage (rows written by older or foreign code).
pub fn stage_or_running(s: &str) -> (r: ExecutionStage)
    ensures
        r == (match stage_named(s@) {
            Some(st) => st,
            None => ExecutionStage::Running,
        }),
{
    match ExecutionStage::parse(s) {
        Some(st) => st,
        None => ExecutionStage::Running,
    }
}

/// Whether a stored stage text is one of the terminal names; cascades and
/// the reaper leave rows with such a stage alone.
pub fn is_terminal_text(s: &str) -> (b: bool)
    ensures
        b == terminal_text(s@),
{
    same_text(s, "completing") || same_text(s, "failed") || same_text(s, "reaped")
}

/// Reading back the stored name of a stage gives that stage, so no two
/// stages share a name.
pub proof fn lemma_stage_name_round_trip(stage: ExecutionStage)
    ensures
        stage_named(stage_name(stage)) == Some(stage),
{
    lemma_stage_names_distinct();
}

/// The eight stored names are pairwise different.
proof fn lemma_stage_names_distinct()
    ensures
        "starting"@ != "running"@,
        "starting"@ != "checkpointing"@,
        "starting"@ != "paused"@,
        "starting"@ != "resuming"@,
        "starting"@ != "completing"@,
        "starting"@ != "failed"@,
        "starting"@ != "reaped"@,
        "running"@ != "checkpointing"@,
        "running"@ != "paused"@,
        "running"@ != "resuming"@,
        "running"@ != "completing"@,
        "running"@ != "failed"@,
        "running"@ != "reaped"@,
        "checkpointing"@ != "paused"@,
        "checkpointing"@ != "resuming"@,
        "checkpointing"@ != "completing"@,
        "checkpointing"@ != "failed"@,
        "checkpointing"@ != "reaped"@,
        "paused"@ != "resuming"@,
        "paused"@ != "completing"@,
        "paused"@ != "failed"@,
        "paused"@ != "reaped"@,
        "resuming"@ != "completing"@,
        "resuming"@ != "failed"@,
        "resuming"@ != "reaped"@,
        "completing"@ != "failed"@,
        "completing"@ != "reaped"@,
        "failed"@ != "reaped"@,
{
    reveal_strlit("starting");
    reveal_strlit("running");
    reveal_strlit("checkpointing");
    reveal_strlit("paused");
    reveal_strlit("resuming");
    reveal_strlit("completing");
    reveal_strlit("failed");
    reveal_strlit("reaped");
    // names of equal length differ in their first character
    assert("starting"@[0] != "resuming"@[0]);
    assert("paused"@[0] != "failed"@[0]);
    assert("paused"@[0] != "reaped"@[0]);
    assert("failed"@[0] != "reaped"@[0]);
    assert("running"@.len() != "checkpointing"@.len());
    assert("running"@.len() != "resuming"@.len());
}

/// A stage written under its name reads back as the same stage, also
/// through the fallback used when loading stored rows.
pub proof fn lemma_stored_stage_reads_back(stage: ExecutionStage)
    ensures
        (match stage_named(stage_name(stage)) {
            Some(st) => st,
            None => ExecutionStage::Running,
        }) == stage,
{
    lemma_stage_name_round_trip(stage);
}

/// A name is read as a stage only if it is that stage's stored name.
pub proof fn lemma_stage_named_only_names(text: Seq<char>)
    ensures
        stage_named(text) matches Some(st) ==> stage_name(st) == text,
{
}

/// The terminal names are exactly the names of the terminal stages: a stored
/// text is terminal iff it reads as a stage that is terminal.
pub proof fn lemma_terminal_text_is_terminal_stage(text: Seq<char>)
    ensures
        terminal_text(text) <==> (stage_named(text) matches Some(st) && stage_is_terminal(st)),
{
    lemma_stage_names_distinct();
}

/// A request the protocol turns down before, or instead of, touching
/// storage. Each variant carries the detail shown to the caller.
#[derive(Debug, Clone)]
pub enum ProtocolError {
    /// The request is malformed (bad execution id, zero interval, ...).
    InvalidInput(String),
    /// The request names something that is not registered.
    NotFound(String),
}

/// The text a protocol error displays as.
pub open spec fn error_text(e: ProtocolError) -> Seq<char> {
    match e {
        ProtocolError::InvalidInput(m) => "invalid input: "@ + m@,
        ProtocolError::NotFound(m) => "not found: "@ + m@,
    }
}

impl ProtocolError {
    /// The detail carried by the error.
    pub fn detail(&self) -> (s: &String)
        ensures
            s@ == (match *self {
                ProtocolError::InvalidInput(m) => m@,
                ProtocolError::NotFound(m) => m@,
            }),
    {
        match self {
            ProtocolError::InvalidInput(m) => m,
            ProtocolError::NotFound(m) => m,
        }
    }

    /// What the error displays as: its kind, a colon, and the detail.
    pub fn to_string(&self) -> (s: String)
        ensures
            s@ == error_text(*self),
    {
        match self {
            ProtocolError::InvalidInput(m) => String::from_str("invalid input: ").concat(
                m.as_str(),
            ),
            ProtocolError::NotFound(m) => String::from_str("not found: ").concat(m.as_str()),
        }
    }
}

/// The longest execution id accepted, in characters.
pub const MAX_EXECUTION_ID_LEN: usize = 256;

/// Characters an execution id may hold: ASCII letters and digits, `-`, `_`
/// and `.`; nothing that could form a path or break out of a query.
pub open spec fn id_char_allowed(c: char) -> bool {
    ('a' <= c && c <= 'z') || ('A' <= c && c <= 'Z') || ('0' <= c && c <= '9') || c == '-' || c
        == '_' || c == '.'
}

/// Why an execution id is refused, or `None` when it is acceptable. An empty
/// id is reported first, then one that is too long, then a bad character.
pub open spec fn id_rejection(id: Seq<char>) -> Option<Seq<char>> {
    if id.len() == 0 {
        Some("execution_id must not be empty"@)
    } else if id.len() > MAX_EXECUTION_ID_LEN {
        Some("execution_id too long (max 256 chars)"@)
    } else if exists|i: int| 0 <= i < id.len() && !id_char_allowed(#[trigger] id[i]) {
        Some("execution_id contains invalid characters"@)
    } else {
        None
    }
}

/// Checks an execution id before it is used as a key.
pub fn validate_execution_id(id: &str) -> (r: Result<(), ProtocolError>)
    ensures
        match r {
            Ok(()) => id_rejection(id@) is None,
            Err(ProtocolError::InvalidInput(m)) => id_rejection(id@) == Some(m@),
            Err(ProtocolError::NotFound(_)) => false,
        },
        r is Ok <==> (1 <= id@.len() <= 256 && forall|i: int|
            0 <= i < id@.len() ==> ('a' <= #[trigger] id@[i] <= 'z') || ('A' <= id@[i] <= 'Z') || (
            '0' <= id@[i] <= '9') || id@[i] == '-' || id@[i] == '_' || id@[i] == '.'),
{
    proof {
        lemma_accepted_ids(id@);
    }
    let n = id.unicode_len();
    if n == 0 {
        return Err(ProtocolError::InvalidInput(String::from_str("execution_id must not be empty")));
    }
    if n > MAX_EXECUTION_ID_LEN {
        return Err(
            ProtocolError::InvalidInput(String::from_str("execution_id too long (max 256 chars)")),
        );
    }
    let mut i: usize = 0;
    while i < n
        invariant
            n == id@.len(),
            0 < n <= MAX_EXECUTION_ID_LEN,
            i <= n,
            forall|k: int| 0 <= k < i ==> id_char_allowed(#[trigger] id@[k]),
        decreases n - i,
    {
        let c = id.get_char(i);
        let ok = ('a' <= c && c <= 'z') || ('A' <= c && c <= 'Z') || ('0' <= c && c <= '9') || c
            == '-' || c == '_' || c == '.';
        if !ok {
            return Err(
                ProtocolError::InvalidInput(
                    String::from_str("execution_id contains invalid characters"),
                ),
            );
        }
        i = i + 1;
    }
    Ok(())
}

/// An execution id is accepted exactly when it has 1 to 256 characters,
/// each an ASCII letter of either case, a digit, `-`, `_` or `.`.
pub proof fn lemma_accepted_ids(id: Seq<char>)
    ensures
        id_rejection(id) is None <==> (1 <= id.len() <= 256 && forall|i: int|
            0 <= i < id.len() ==> ('a' <= #[trigger] id[i] <= 'z') || ('A' <= id[i] <= 'Z') || (
            '0' <= id[i] <= '9') || id[i] == '-' || id[i] == '_' || id[i] == '.'),
{
}

/// Each stage is stored under its own lowercase name, and each of these
/// names reads back as that stage.
pub proof fn lemma_stage_names_are_their_own()
    ensures
        stage_name(ExecutionStage::Starting) == "starting"@,
        stage_name(ExecutionStage::Running) == "running"@,
        stage_name(ExecutionStage::Checkpointing) == "checkpointing"@,
        stage_name(ExecutionStage::Paused) == "paused"@,
        stage_name(ExecutionStage::Resuming) == "resuming"@,
        stage_name(ExecutionStage::Completing) == "completing"@,
        stage_name(ExecutionStage::Failed) == "failed"@,
        stage_name(ExecutionStage::Reaped) == "reaped"@,
        stage_named("starting"@) == Some(ExecutionStage::Starting),
        stage_named("running"@) == Some(ExecutionStage::Running),
        stage_named("checkpointing"@) == Some(ExecutionStage::Checkpointing),
        stage_named("paused"@) == Some(ExecutionStage::Paused),
        stage_named("resuming"@) == Some(ExecutionStage::Resuming),
        stage_named("completing"@) == Some(ExecutionStage::Completing),
        stage_named("failed"@) == Some(ExecutionStage::Failed),
        stage_named("reaped"@) == Some(ExecutionStage::Reaped),
{
    lemma_stage_names_distinct();
}

} // verus!
