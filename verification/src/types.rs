//! Strongly-typed domain models for the Google Antigravity SDK.

use vstd::prelude::*;
use crate::json::{JsonValue, JsonView, is_digit, digits_value};

verus! {

// =============================================================================
// Error Types
// =============================================================================

#[derive(Debug)]
pub enum AntigravityError {
    Connection(String),
    Validation(String),
    Other(String),
}

/// The text that the error displays.
pub open spec fn error_text(e: AntigravityError) -> Seq<char> {
    match e {
        AntigravityError::Connection(msg) => "Connection Error: "@ + msg@,
        AntigravityError::Validation(msg) => "Validation Error: "@ + msg@,
        AntigravityError::Other(msg) => "Error: "@ + msg@,
    }
}

impl AntigravityError {
    /// The text of the error, as its `Display` writes it.
    pub fn to_string(&self) -> (s: String)
        ensures
            s@ == error_text(*self),
    {
        let (prefix, msg) = match self {
            AntigravityError::Connection(msg) => ("Connection Error: ", msg),
            AntigravityError::Validation(msg) => ("Validation Error: ", msg),
            AntigravityError::Other(msg) => ("Error: ", msg),
        };
        let mut s = prefix.to_owned();
        s.append(msg.as_str());
        s
    }
}

/// `a` and `b` hold the same text.
pub fn str_equal(a: &str, b: &str) -> (r: bool)
    ensures
        r == (a@ == b@),
{
    let x = a.to_owned();
    let y = b.to_owned();
    x == y
}

// =============================================================================
// Enums read from the wire either by name or by integer tag
// =============================================================================

#[derive(Debug, Clone, Copy, PartialEq, Eq, Structural)]
pub enum StepState {
    Unspecified,
    Active,
    Done,
    WaitingForUser,
    Error,
}

#[derive(Debug, Clone, Copy, PartialEq, Eq, Structural)]
pub enum StepSource {
    Unknown,
    System,
    User,
    Model,
}

#[derive(Debug, Clone, Copy, PartialEq, Eq, Structural)]
pub enum StepTarget {
    Unknown,
    User,
    Model,
    Environment,
}

#[derive(Debug, Clone, Copy, PartialEq, Eq, Structural)]
pub enum TrajectoryState {
    Unspecified,
    Running,
    Idle,
}

/// `v` is one of the three spellings that name a variant.
pub open spec fn named(v: Seq<char>, a: Seq<char>, b: Seq<char>, c: Seq<char>) -> bool {
    v == a || v == b || v == c
}

fn is_named(v: &str, a: &str, b: &str, c: &str) -> (r: bool)
    ensures
        r == named(v@, a@, b@, c@),
{
    str_equal(v, a) || str_equal(v, b) || str_equal(v, c)
}

impl StepState {
    /// The state for an integer tag; unknown tags give `Unspecified`.
    pub open spec fn spec_from_tag(v: int) -> StepState {
        if v == 1 { StepState::Active }
        else if v == 2 { StepState::Done }
        else if v == 3 { StepState::WaitingForUser }
        else if v == 4 { StepState::Error }
        else { StepState::Unspecified }
    }

    /// The state for a name; unknown names give `Unspecified`.
    pub open spec fn spec_from_name(v: Seq<char>) -> StepState {
        if named(v, "STATE_ACTIVE"@, "Active"@, "active"@) { StepState::Active }
        else if named(v, "STATE_DONE"@, "Done"@, "done"@) { StepState::Done }
        else if named(v, "STATE_WAITING_FOR_USER"@, "WaitingForUser"@, "waiting_for_user"@) { StepState::WaitingForUser }
        else if named(v, "STATE_ERROR"@, "Error"@, "error"@) { StepState::Error }
        else { StepState::Unspecified }
    }

    pub fn from_i64(v: i64) -> (r: StepState)
        ensures
            r == Self::spec_from_tag(v as int),
    {
        if v == 1 { StepState::Active }
        else if v == 2 { StepState::Done }
        else if v == 3 { StepState::WaitingForUser }
        else if v == 4 { StepState::Error }
        else { StepState::Unspecified }
    }

    /// Unsigned tags are read as `i64`, as the wire decoder does.
    pub fn from_u64(v: u64) -> (r: StepState)
        ensures
            r == Self::spec_from_tag((v as i64) as int),
    {
        Self::from_i64(v as i64)
    }

    pub fn from_name(v: &str) -> (r: StepState)
        ensures
            r == Self::spec_from_name(v@),
    {
        if is_named(v, "STATE_ACTIVE", "Active", "active") { StepState::Active }
        else if is_named(v, "STATE_DONE", "Done", "done") { StepState::Done }
        else if is_named(v, "STATE_WAITING_FOR_USER", "WaitingForUser", "waiting_for_user") { StepState::WaitingForUser }
        else if is_named(v, "STATE_ERROR", "Error", "error") { StepState::Error }
        else { StepState::Unspecified }
    }
}

impl StepSource {
    pub open spec fn spec_from_tag(v: int) -> StepSource {
        if v == 1 { StepSource::System }
        else if v == 2 { StepSource::User }
        else if v == 3 { StepSource::Model }
        else { StepSource::Unknown }
    }

    pub open spec fn spec_from_name(v: Seq<char>) -> StepSource {
        if named(v, "SOURCE_SYSTEM"@, "System"@, "system"@) { StepSource::System }
        else if named(v, "SOURCE_USER"@, "User"@, "user"@) { StepSource::User }
        else if named(v, "SOURCE_MODEL"@, "Model"@, "model"@) { StepSource::Model }
        else { StepSource::Unknown }
    }

    pub fn from_i64(v: i64) -> (r: StepSource)
        ensures
            r == Self::spec_from_tag(v as int),
    {
        if v == 1 { StepSource::System }
        else if v == 2 { StepSource::User }
        else if v == 3 { StepSource::Model }
        else { StepSource::Unknown }
    }

    pub fn from_u64(v: u64) -> (r: StepSource)
        ensures
            r == Self::spec_from_tag((v as i64) as int),
    {
        Self::from_i64(v as i64)
    }

    pub fn from_name(v: &str) -> (r: StepSource)
        ensures
            r == Self::spec_from_name(v@),
    {
        if is_named(v, "SOURCE_SYSTEM", "System", "system") { StepSource::System }
        else if is_named(v, "SOURCE_USER", "User", "user") { StepSource::User }
        else if is_named(v, "SOURCE_MODEL", "Model", "model") { StepSource::Model }
        else { StepSource::Unknown }
    }
}

impl StepTarget {
    pub open spec fn spec_from_tag(v: int) -> StepTarget {
        if v == 1 { StepTarget::User }
        else if v == 2 { StepTarget::Model }
        else if v == 3 { StepTarget::Environment }
        else { StepTarget::Unknown }
    }

    pub open spec fn spec_from_name(v: Seq<char>) -> StepTarget {
        if named(v, "TARGET_USER"@, "User"@, "user"@) { StepTarget::User }
        else if named(v, "TARGET_MODEL"@, "Model"@, "model"@) { StepTarget::Model }
        else if named(v, "TARGET_ENVIRONMENT"@, "Environment"@, "environment"@) { StepTarget::Environment }
        else { StepTarget::Unknown }
    }

    pub fn from_i64(v: i64) -> (r: StepTarget)
        ensures
            r == Self::spec_from_tag(v as int),
    {
        if v == 1 { StepTarget::User }
        else if v == 2 { StepTarget::Model }
        else if v == 3 { StepTarget::Environment }
        else { StepTarget::Unknown }
    }

    pub fn from_u64(v: u64) -> (r: StepTarget)
        ensures
            r == Self::spec_from_tag((v as i64) as int),
    {
        Self::from_i64(v as i64)
    }

    pub fn from_name(v: &str) -> (r: StepTarget)
        ensures
            r == Self::spec_from_name(v@),
    {
        if is_named(v, "TARGET_USER", "User", "user") { StepTarget::User }
        else if is_named(v, "TARGET_MODEL", "Model", "model") { StepTarget::Model }
        else if is_named(v, "TARGET_ENVIRONMENT", "Environment", "environment") { StepTarget::Environment }
        else { StepTarget::Unknown }
    }
}

impl TrajectoryState {
    pub open spec fn spec_from_tag(v: int) -> TrajectoryState {
        if v == 1 { TrajectoryState::Running }
        else if v == 2 { TrajectoryState::Idle }
        else { TrajectoryState::Unspecified }
    }

    pub open spec fn spec_from_name(v: Seq<char>) -> TrajectoryState {
        if named(v, "STATE_RUNNING"@, "Running"@, "running"@) { TrajectoryState::Running }
        else if named(v, "STATE_IDLE"@, "Idle"@, "idle"@) { TrajectoryState::Idle }
        else { TrajectoryState::Unspecified }
    }

    pub fn from_i64(v: i64) -> (r: TrajectoryState)
        ensures
            r == Self::spec_from_tag(v as int),
    {
        if v == 1 { TrajectoryState::Running }
        else if v == 2 { TrajectoryState::Idle }
        else { TrajectoryState::Unspecified }
    }

    pub fn from_u64(v: u64) -> (r: TrajectoryState)
        ensures
            r == Self::spec_from_tag((v as i64) as int),
    {
        Self::from_i64(v as i64)
    }

    pub fn from_name(v: &str) -> (r: TrajectoryState)
        ensures
            r == Self::spec_from_name(v@),
    {
        if is_named(v, "STATE_RUNNING", "Running", "running") { TrajectoryState::Running }
        else if is_named(v, "STATE_IDLE", "Idle", "idle") { TrajectoryState::Idle }
        else { TrajectoryState::Unspecified }
    }
}

#[derive(Debug, Clone, Copy, PartialEq, Eq, Structural)]
pub enum StepType {
    TextResponse,
    ToolCall,
    SystemMessage,
    Compaction,
    Finish,
    Unknown,
}

#[derive(Debug, Clone, Copy, PartialEq, Eq, Structural)]
pub enum StepStatus {
    Active,
    Done,
    WaitingForUser,
    Error,
    Canceled,
    Unknown,
}

// =============================================================================
// Builtin tools
// =============================================================================

#[derive(Debug, Clone, Copy, PartialEq, Eq, Hash, Structural)]
pub enum BuiltinTools {
    ListDir,
    SearchDir,
    FindFile,
    ViewFile,
    CreateFile,
    EditFile,
    RunCommand,
    AskQuestion,
    StartSubagent,
    GenerateImage,
    Finish,
}

/// The wire name of each builtin tool.
pub open spec fn tool_name(t: BuiltinTools) -> Seq<char> {
    match t {
        BuiltinTools::ListDir => "list_directory"@,
        BuiltinTools::SearchDir => "search_directory"@,
        BuiltinTools::FindFile => "find_file"@,
        BuiltinTools::ViewFile => "view_file"@,
        BuiltinTools::CreateFile => "create_file"@,
        BuiltinTools::EditFile => "edit_file"@,
        BuiltinTools::RunCommand => "run_command"@,
        BuiltinTools::AskQuestion => "ask_question"@,
        BuiltinTools::StartSubagent => "start_subagent"@,
        BuiltinTools::GenerateImage => "generate_image"@,
        BuiltinTools::Finish => "finish"@,
    }
}

/// Every builtin tool, in declaration order.
pub open spec fn all_tools_spec() -> Seq<BuiltinTools> {
    seq![
        BuiltinTools::ListDir,
        BuiltinTools::SearchDir,
        BuiltinTools::FindFile,
        BuiltinTools::ViewFile,
        BuiltinTools::CreateFile,
        BuiltinTools::EditFile,
        BuiltinTools::RunCommand,
        BuiltinTools::AskQuestion,
        BuiltinTools::StartSubagent,
        BuiltinTools::GenerateImage,
        BuiltinTools::Finish,
    ]
}

impl BuiltinTools {
    pub fn as_str(&self) -> (s: &'static str)
        ensures
            s@ == tool_name(*self),
    {
        match self {
            BuiltinTools::ListDir => "list_directory",
            BuiltinTools::SearchDir => "search_directory",
            BuiltinTools::FindFile => "find_file",
            BuiltinTools::ViewFile => "view_file",
            BuiltinTools::CreateFile => "create_file",
            BuiltinTools::EditFile => "edit_file",
            BuiltinTools::RunCommand => "run_command",
            BuiltinTools::AskQuestion => "ask_question",
            BuiltinTools::StartSubagent => "start_subagent",
            BuiltinTools::GenerateImage => "generate_image",
            BuiltinTools::Finish => "finish",
        }
    }

    /// The tools that only read: listing, searching, finding, viewing, finishing.
    pub fn read_only() -> (v: Vec<Self>)
        ensures
            v@ == seq![
                BuiltinTools::ListDir,
                BuiltinTools::SearchDir,
                BuiltinTools::FindFile,
                BuiltinTools::ViewFile,
                BuiltinTools::Finish,
            ],
    {
        let v = vec![
            BuiltinTools::ListDir,
            BuiltinTools::SearchDir,
            BuiltinTools::FindFile,
            BuiltinTools::ViewFile,
            BuiltinTools::Finish,
        ];
        assert(v@ =~= seq![
            BuiltinTools::ListDir,
            BuiltinTools::SearchDir,
            BuiltinTools::FindFile,
            BuiltinTools::ViewFile,
            BuiltinTools::Finish,
        ]);
        v
    }

    /// The tools that touch files: view, create, edit.
    pub fn file_tools() -> (v: Vec<Self>)
        ensures
            v@ == seq![BuiltinTools::ViewFile, BuiltinTools::CreateFile, BuiltinTools::EditFile],
    {
        let v = vec![
            BuiltinTools::ViewFile,
            BuiltinTools::CreateFile,
            BuiltinTools::EditFile,
        ];
        assert(v@ =~= seq![BuiltinTools::ViewFile, BuiltinTools::CreateFile, BuiltinTools::EditFile]);
        v
    }

    /// Every builtin tool.
    pub fn all_tools() -> (v: Vec<Self>)
        ensures
            v@ == all_tools_spec(),
    {
        let v = vec![
            BuiltinTools::ListDir,
            BuiltinTools::SearchDir,
            BuiltinTools::FindFile,
            BuiltinTools::ViewFile,
            BuiltinTools::CreateFile,
            BuiltinTools::EditFile,
            BuiltinTools::RunCommand,
            BuiltinTools::AskQuestion,
            BuiltinTools::StartSubagent,
            BuiltinTools::GenerateImage,
            BuiltinTools::Finish,
        ];
        assert(v@ =~= all_tools_spec());
        v
    }
}

/// Law: every builtin tool occurs in `all_tools`, exactly once.
pub proof fn lemma_all_tools_complete(t: BuiltinTools)
    ensures
        all_tools_spec().contains(t),
        forall|i: int, j: int| 0 <= i < j < all_tools_spec().len()
            ==> all_tools_spec()[i] != all_tools_spec()[j],
{
    let s = all_tools_spec();
    match t {
        BuiltinTools::ListDir => assert(s[0] == t),
        BuiltinTools::SearchDir => assert(s[1] == t),
        BuiltinTools::FindFile => assert(s[2] == t),
        BuiltinTools::ViewFile => assert(s[3] == t),
        BuiltinTools::CreateFile => assert(s[4] == t),
        BuiltinTools::EditFile => assert(s[5] == t),
        BuiltinTools::RunCommand => assert(s[6] == t),
        BuiltinTools::AskQuestion => assert(s[7] == t),
        BuiltinTools::StartSubagent => assert(s[8] == t),
        BuiltinTools::GenerateImage => assert(s[9] == t),
        BuiltinTools::Finish => assert(s[10] == t),
    }
}

/// Law: distinct builtin tools have distinct wire names.
pub proof fn lemma_tool_names_distinct(a: BuiltinTools, b: BuiltinTools)
    requires
        a != b,
    ensures
        tool_name(a) != tool_name(b),
{
    reveal_strlit("list_directory");
    reveal_strlit("search_directory");
    reveal_strlit("find_file");
    reveal_strlit("view_file");
    reveal_strlit("create_file");
    reveal_strlit("edit_file");
    reveal_strlit("run_command");
    reveal_strlit("ask_question");
    reveal_strlit("start_subagent");
    reveal_strlit("generate_image");
    reveal_strlit("finish");
    if tool_name(a) == tool_name(b) {
        assert(tool_name(a).len() == tool_name(b).len());
        assert(tool_name(a)[0] == tool_name(b)[0]);
        assert(tool_name(a)[1] == tool_name(b)[1]);
        assert(tool_name(a)[2] == tool_name(b)[2]);
    }
}

// =============================================================================
// Configuration Types
// =============================================================================

#[derive(Debug, Clone, Copy, PartialEq, Eq, Structural)]
pub enum ThinkingLevel {
    Minimal,
    Low,
    Medium,
    High,
}

pub open spec fn thinking_level_name(t: ThinkingLevel) -> Seq<char> {
    match t {
        ThinkingLevel::Minimal => "minimal"@,
        ThinkingLevel::Low => "low"@,
        ThinkingLevel::Medium => "medium"@,
        ThinkingLevel::High => "high"@,
    }
}

impl ThinkingLevel {
    pub fn as_str(&self) -> (s: &'static str)
        ensures
            s@ == thinking_level_name(*self),
    {
        match self {
            ThinkingLevel::Minimal => "minimal",
            ThinkingLevel::Low => "low",
            ThinkingLevel::Medium => "medium",
            ThinkingLevel::High => "high",
        }
    }
}

#[derive(Debug, Clone)]
pub struct GenerationConfig {
    pub thinking_level: Option<ThinkingLevel>,
}

#[derive(Debug, Clone)]
pub struct ModelEntry {
    pub name: String,
    pub api_key: Option<String>,
    pub generation: Option<GenerationConfig>,
}

#[derive(Debug, Clone)]
pub struct ModelConfig {
    pub default: ModelEntry,
}

#[derive(Debug, Clone)]
pub struct GeminiConfig {
    pub models: ModelConfig,
    pub api_key: Option<String>,
}

#[derive(Debug, Clone)]
pub struct WireGeminiConfig {
    pub api_key: Option<String>,
    pub base_url: Option<String>,
    pub model_name: Option<String>,
    pub thinking_level: Option<String>,
    pub enable_url_context: Option<bool>,
    pub enable_google_search: Option<bool>,
}

/// The view of an optional string.
pub open spec fn opt_str(o: Option<String>) -> Option<Seq<char>> {
    match o {
        Some(s) => Some(s@),
        None => None,
    }
}

pub fn clone_opt_string(o: &Option<String>) -> (r: Option<String>)
    ensures
        opt_str(r) == opt_str(*o),
{
    match o {
        Some(s) => Some(s.clone()),
        None => None,
    }
}

/// The api key sent on the wire: the default model's own key, else the
/// config-wide key.
pub open spec fn effective_api_key(c: GeminiConfig) -> Option<Seq<char>> {
    match c.models.default.api_key {
        Some(k) => Some(k@),
        None => opt_str(c.api_key),
    }
}

/// The thinking level sent on the wire, by name.
pub open spec fn wire_thinking_level(c: GeminiConfig) -> Option<Seq<char>> {
    match c.models.default.generation {
        Some(g) => match g.thinking_level {
            Some(tl) => Some(thinking_level_name(tl)),
            None => None,
        },
        None => None,
    }
}

/// `w` is the wire form of `c`: the effective key, the default model's
/// name, the thinking level by its wire name, nothing else set.
pub open spec fn is_wire_form(w: WireGeminiConfig, c: GeminiConfig) -> bool {
    &&& opt_str(w.api_key) == effective_api_key(c)
    &&& w.base_url is None
    &&& opt_str(w.model_name) == Some(c.models.default.name@)
    &&& opt_str(w.thinking_level) == wire_thinking_level(c)
    &&& w.enable_url_context is None
    &&& w.enable_google_search is None
}

impl GeminiConfig {
    /// The configuration as the harness expects it.
    pub fn to_wire(&self) -> (w: WireGeminiConfig)
        ensures
            is_wire_form(w, *self),
    {
        let effective_api_key = match &self.models.default.api_key {
            Some(k) => Some(k.clone()),
            None => clone_opt_string(&self.api_key),
        };
        let thinking_level = match &self.models.default.generation {
            Some(g) => match g.thinking_level {
                Some(tl) => Some(tl.as_str().to_owned()),
                None => None,
            },
            None => None,
        };
        WireGeminiConfig {
            api_key: effective_api_key,
            base_url: None,
            model_name: Some(self.models.default.name.clone()),
            thinking_level,
            enable_url_context: None,
            enable_google_search: None,
        }
    }
}

impl Default for GeminiConfig {
    fn default() -> (c: Self)
        ensures
            c.models.default.name@ == "gemini-2.5-flash"@,
            c.models.default.api_key is None,
            c.models.default.generation is None,
            c.api_key is None,
    {
        GeminiConfig {
            models: ModelConfig {
                default: ModelEntry {
                    name: "gemini-2.5-flash".to_owned(),
                    api_key: None,
                    generation: None,
                },
            },
            api_key: None,
        }
    }
}

#[derive(Debug, Clone)]
pub struct SystemInstructionSection {
    pub title: Option<String>,
    pub content: String,
}

#[derive(Debug, Clone)]
pub struct CustomSystemInstructionPart {
    pub text: String,
}

#[derive(Debug, Clone)]
pub struct CustomSystemInstructions {
    pub part: Vec<CustomSystemInstructionPart>,
}

#[derive(Debug, Clone)]
pub struct AppendedSystemInstructions {
    pub custom_identity: Option<String>,
    pub appended_sections: Vec<SystemInstructionSection>,
}

#[derive(Debug, Clone)]
pub struct SystemInstructions {
    pub custom: Option<CustomSystemInstructions>,
    pub appended: Option<AppendedSystemInstructions>,
}

#[derive(Debug, Clone)]
pub struct FilesystemWorkspace {
    pub directory: String,
}

#[derive(Debug, Clone)]
pub struct Workspace {
    pub filesystem_workspace: FilesystemWorkspace,
}

#[derive(Debug, Clone)]
pub struct Tool {
    pub name: String,
    pub description: String,
    pub parameters_json_schema: String,
    pub response_json_schema: Option<String>,
}

#[derive(Debug, Clone)]
pub struct FindToolConfig { pub enabled: bool }
#[derive(Debug, Clone)]
pub struct RunCommandToolConfig { pub enabled: bool }
#[derive(Debug, Clone)]
pub struct SubagentsConfig { pub enabled: bool }
#[derive(Debug, Clone)]
pub struct UserQuestionsConfig { pub enabled: bool }
#[derive(Debug, Clone)]
pub struct FileEditToolConfig { pub enabled: bool }
#[derive(Debug, Clone)]
pub struct ViewFileToolConfig { pub enabled: bool }
#[derive(Debug, Clone)]
pub struct WriteToFileToolConfig { pub enabled: bool }
#[derive(Debug, Clone)]
pub struct GrepSearchToolConfig { pub enabled: bool }
#[derive(Debug, Clone)]
pub struct ListDirToolConfig { pub enabled: bool }
#[derive(Debug, Clone)]
pub struct GenerateImageToolConfig {
    pub enabled: bool,
    pub model_name: Option<String>,
}

#[derive(Debug, Clone)]
pub struct HarnessSideTools {
    pub find: FindToolConfig,
    pub run_command: RunCommandToolConfig,
    pub subagents: SubagentsConfig,
    pub user_questions: UserQuestionsConfig,
    pub file_edit: FileEditToolConfig,
    pub view_file: ViewFileToolConfig,
    pub write_to_file: WriteToFileToolConfig,
    pub grep_search: GrepSearchToolConfig,
    pub list_dir: ListDirToolConfig,
    pub generate_image: GenerateImageToolConfig,
}

#[derive(Debug, Clone)]
pub struct HarnessConfig {
    pub tools: Vec<Tool>,
    pub system_instructions: Option<SystemInstructions>,
    pub cascade_id: String,
    pub gemini_config: Option<WireGeminiConfig>,
    pub workspaces: Vec<Workspace>,
    pub skills_paths: Vec<String>,
    pub harness_side_tools: HarnessSideTools,
    pub compaction_threshold: u32,
    pub finish_tool_schema_json: String,
    pub app_data_dir: String,
}

#[derive(Debug, Clone)]
pub struct CapabilitiesConfig {
    pub enabled_tools: Option<Vec<BuiltinTools>>,
    pub disabled_tools: Option<Vec<BuiltinTools>>,
    pub enable_subagents: bool,
    pub image_model: String,
    pub compaction_threshold: Option<u32>,
    pub finish_tool_schema_json: Option<String>,
}

impl Default for CapabilitiesConfig {
    fn default() -> (c: Self)
        ensures
            c.enabled_tools is None,
            c.disabled_tools is None,
            c.enable_subagents,
            c.image_model@ == "imagen-3.0-generate-002"@,
            c.compaction_threshold is None,
            c.finish_tool_schema_json is None,
    {
        CapabilitiesConfig {
            enabled_tools: None,
            disabled_tools: None,
            enable_subagents: true,
            image_model: "imagen-3.0-generate-002".to_owned(),
            compaction_threshold: None,
            finish_tool_schema_json: None,
        }
    }
}

#[derive(Debug, Clone)]
pub struct McpServerConfig {
    pub name: String,
    pub command: String,
    pub args: Vec<String>,
}

// =============================================================================
// Live Execution Events and Steps
// =============================================================================

#[derive(Debug, Clone)]
pub struct ToolCall {
    pub id: Option<String>,
    pub name: String,
    pub args: JsonValue,
    pub arguments_json: Option<String>,
    pub canonical_path: Option<String>,
}

#[derive(Debug, Clone)]
pub struct ToolResult {
    pub id: Option<String>,
    pub name: String,
    pub result: JsonValue,
    pub error: Option<String>,
}

/// Token counts reported by the model; absent counts are `None`.
#[derive(Debug, Clone, Copy, PartialEq, Eq, Structural)]
pub struct UsageMetadata {
    pub prompt_token_count: Option<u64>,
    pub cached_content_token_count: Option<u64>,
    pub candidates_token_count: Option<u64>,
    pub thoughts_token_count: Option<u64>,
    pub total_token_count: Option<u64>,
}

/// A counter read from the wire as an integer: negative values are refused.
pub fn wire_count_from_i64(v: i64) -> (r: Result<u64, String>)
    ensures
        v >= 0 ==> r == Ok::<u64, String>(v as u64),
        v < 0 ==> (r matches Err(m) && m@ == "negative sequence number"@),
{
    if v >= 0 {
        Ok(v as u64)
    } else {
        Err("negative sequence number".to_owned())
    }
}

/// The text `str::parse::<u64>` reports (through `Display`) when it refuses `s`.
pub uninterp spec fn u64_parse_error_text(s: Seq<char>) -> Seq<char>;

/// `s` is what `u64::from_str` accepts: an optional `+` followed by one or
/// more ASCII digits.
pub open spec fn u64_digits(s: Seq<char>) -> Option<Seq<char>> {
    let d = if s.len() > 0 && s[0] == '+' { s.skip(1) } else { s };
    if d.len() > 0 && forall|i: int| 0 <= i < d.len() ==> is_digit(#[trigger] d[i]) {
        Some(d)
    } else {
        None
    }
}

/// What `str::parse::<u64>` gives for `s`.
pub open spec fn u64_parse_ok(s: Seq<char>) -> Option<u64> {
    match u64_digits(s) {
        Some(d) => if digits_value(d) <= u64::MAX { Some(digits_value(d) as u64) } else { None },
        None => None,
    }
}

/// Reads `s` as a `u64` through `str::parse`.
///
/// Trusted: `u64::from_str` (`from_str_radix` in base 10), documented to
/// take an optional `+` followed by digits and to fail on anything else or
/// on a value above `u64::MAX`; the text of its error is named by
/// `u64_parse_error_text`.
#[verifier::external_body]
fn parse_u64(s: &str) -> (r: Result<u64, String>)
    ensures
        match u64_parse_ok(s@) {
            Some(v) => r == Ok::<u64, String>(v),
            None => r matches Err(e) && e@ == u64_parse_error_text(s@),
        },
{
    s.parse::<u64>().map_err(|e| e.to_string())
}

/// A counter read from the wire as text: decimal digits, with an optional
/// `+`, whose value fits in a `u64`.
pub fn wire_count_from_str(s: &str) -> (r: Result<u64, String>)
    ensures
        match u64_parse_ok(s@) {
            Some(v) => r == Ok::<u64, String>(v),
            None => r matches Err(e) && e@ == u64_parse_error_text(s@),
        },
{
    parse_u64(s)
}

#[derive(Debug, Clone)]
pub struct Step {
    pub id: String,
    pub step_index: u32,
    pub step_type: StepType,
    pub source: StepSource,
    pub target: StepTarget,
    pub status: StepStatus,
    pub content: String,
    pub thinking: String,
    pub content_delta: String,
    pub thinking_delta: String,
    pub tool_calls: Vec<ToolCall>,
    pub error: String,
    pub is_complete_response: Option<bool>,
    pub structured_output: Option<JsonValue>,
    pub usage_metadata: Option<UsageMetadata>,
}

/// An empty step: empty text, index 0, every kind unknown, nothing attached.
pub open spec fn is_blank_step(s: Step) -> bool {
    &&& s.id@ == Seq::<char>::empty()
    &&& s.step_index == 0
    &&& s.step_type == StepType::Unknown
    &&& s.source == StepSource::Unknown
    &&& s.target == StepTarget::Unknown
    &&& s.status == StepStatus::Unknown
    &&& s.content@ == Seq::<char>::empty()
    &&& s.thinking@ == Seq::<char>::empty()
    &&& s.content_delta@ == Seq::<char>::empty()
    &&& s.thinking_delta@ == Seq::<char>::empty()
    &&& s.tool_calls@ == Seq::<ToolCall>::empty()
    &&& s.error@ == Seq::<char>::empty()
    &&& s.is_complete_response is None
    &&& s.structured_output is None
    &&& s.usage_metadata is None
}

impl Default for Step {
    fn default() -> (s: Self)
        ensures
            is_blank_step(s),
    {
        Step {
            id: String::new(),
            step_index: 0,
            step_type: StepType::Unknown,
            source: StepSource::Unknown,
            target: StepTarget::Unknown,
            status: StepStatus::Unknown,
            content: String::new(),
            thinking: String::new(),
            content_delta: String::new(),
            thinking_delta: String::new(),
            tool_calls: Vec::new(),
            error: String::new(),
            is_complete_response: None,
            structured_output: None,
            usage_metadata: None,
        }
    }
}

// =============================================================================
// WebSocket Events
// =============================================================================

#[derive(Debug, Clone)]
pub struct InitializeConversationEvent {
    pub config: HarnessConfig,
}

#[derive(Debug, Clone)]
pub struct OutputEvent {
    pub seq_num: Option<u64>,
    pub timestamp_micros: Option<u64>,
    pub step_update: Option<StepUpdate>,
    pub trajectory_state_update: Option<TrajectoryStateUpdate>,
    pub tool_call: Option<ToolCall>,
    pub usage_metadata: Option<UsageMetadata>,
}

#[derive(Debug, Clone)]
pub struct StepUpdate {
    pub cascade_id: Option<String>,
    pub trajectory_id: Option<String>,
    pub step_index: u32,
    pub state: StepState,
    pub source: StepSource,
    pub target: StepTarget,
    pub error_message: Option<String>,
    pub thinking: Option<String>,
    pub text_delta: Option<String>,
    pub thinking_delta: Option<String>,
    pub text: Option<String>,
    pub list_directory: Option<JsonValue>,
    pub find_file: Option<JsonValue>,
    pub search_directory: Option<JsonValue>,
    pub view_file: Option<JsonValue>,
    pub create_file: Option<JsonValue>,
    pub edit_file: Option<JsonValue>,
    pub run_command: Option<JsonValue>,
    pub compaction: Option<JsonValue>,
    pub invoke_subagent: Option<JsonValue>,
    pub generate_image: Option<JsonValue>,
    pub finish: Option<JsonValue>,
    pub error: Option<ActionError>,
    pub request_text: Option<String>,
    pub tool_confirmation_request: Option<JsonValue>,
    pub questions_request: Option<UserQuestionsRequest>,
}

#[derive(Debug, Clone)]
pub struct ActionError {
    pub error_message: String,
    pub http_code: Option<u32>,
}

#[derive(Debug, Clone)]
pub struct UserQuestionsRequest {
    pub questions: Vec<UserQuestion>,
}

#[derive(Debug, Clone)]
pub struct AskQuestionOption {
    pub id: String,
    pub text: String,
}

#[derive(Debug, Clone)]
pub struct AskQuestionEntry {
    pub question: String,
    pub options: Vec<AskQuestionOption>,
    pub is_multi_select: bool,
}

#[derive(Debug, Clone)]
pub struct AskQuestionInteractionSpec {
    pub questions: Vec<AskQuestionEntry>,
}

#[derive(Debug, Clone)]
pub struct UserQuestion {
    pub multiple_choice: MultipleChoice,
}

#[derive(Debug, Clone)]
pub struct MultipleChoice {
    pub question: String,
    pub choices: Vec<String>,
    pub is_multi_select: bool,
}

#[derive(Debug, Clone)]
pub struct TrajectoryStateUpdate {
    pub trajectory_id: String,
    pub state: TrajectoryState,
}

#[derive(Debug, Clone)]
pub struct InputEvent {
    pub user_input: Option<String>,
    pub complex_user_input: Option<UserInput>,
    pub tool_confirmation: Option<ToolConfirmation>,
    pub tool_response: Option<ToolResponse>,
    pub question_response: Option<UserQuestionsResponse>,
    pub halt_request: Option<bool>,
    pub automated_trigger: Option<String>,
}

#[derive(Debug, Clone)]
pub struct UserInput {
    pub parts: Vec<UserInputPart>,
}

#[derive(Debug, Clone)]
pub struct UserInputPart {
    pub text: Option<String>,
    pub media: Option<MediaInput>,
}

#[derive(Debug, Clone)]
pub struct MediaInput {
    pub mime_type: String,
    pub data: Vec<u8>,
    pub description: Option<String>,
}

#[derive(Debug, Clone)]
pub struct ToolConfirmation {
    pub trajectory_id: String,
    pub step_index: u32,
    pub accepted: bool,
}

#[derive(Debug, Clone)]
pub struct ToolResponse {
    pub id: String,
    pub response_json: String,
}

#[derive(Debug, Clone)]
pub struct UserQuestionsResponse {
    pub trajectory_id: String,
    pub step_index: u32,
    pub response: QuestionsResponseInner,
}

#[derive(Debug, Clone)]
pub struct QuestionsResponseInner {
    pub answers: Vec<UserQuestionAnswer>,
}

#[derive(Debug, Clone)]
pub struct UserQuestionAnswer {
    pub unanswered: bool,
    pub multiple_choice_answer: Option<MultipleChoiceAnswer>,
}

#[derive(Debug, Clone)]
pub struct MultipleChoiceAnswer {
    pub selected_choice_indices: Vec<u32>,
    pub freeform_response: Option<String>,
}

// =============================================================================
// Input Content Primitives for User Prompts
// =============================================================================

#[derive(Debug, Clone)]
pub struct Media {
    pub mime_type: String,
    pub data: Vec<u8>,
    pub description: Option<String>,
}

#[derive(Debug, Clone)]
pub enum ContentPrimitive {
    Text(String),
    Media(Media),
}

pub type Content = Vec<ContentPrimitive>;

pub trait IntoContent {
    fn into_content(self) -> Content;
}

impl IntoContent for String {
    fn into_content(self) -> (c: Content)
        ensures
            c@ == seq![ContentPrimitive::Text(self)],
    {
        let mut v: Content = Vec::new();
        v.push(ContentPrimitive::Text(self));
        v
    }
}

impl IntoContent for &str {
    fn into_content(self) -> (c: Content)
        ensures
            c@.len() == 1,
            c@[0] matches ContentPrimitive::Text(t) && t@ == self@,
    {
        let mut v: Content = Vec::new();
        v.push(ContentPrimitive::Text(self.to_owned()));
        v
    }
}

impl IntoContent for Content {
    fn into_content(self) -> (c: Content)
        ensures
            c == self,
    {
        self
    }
}

// =============================================================================
// Streaming Chunks
// =============================================================================

#[derive(Debug, Clone)]
pub enum StreamChunk {
    Thought { step_index: u32, text: String },
    Text { step_index: u32, text: String },
    ToolCall(ToolCall),
}

} // verus!
