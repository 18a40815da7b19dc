//! The decisions of a connection to the `localharness` runtime: how paths on
//! the wire are read, how a step update becomes a step, what a tool call, a
//! confirmation or a question request is answered, and when the agent is
//! idle. The transport (process, socket, tasks) runs these.

use vstd::prelude::*;
use vstd::utf8::{valid_utf8, decode_utf8, encode_utf8};
use crate::text::{has_prefix, starts_with, decimal, u64_to_decimal};
use crate::json::{JsonValue, JsonView, json_get, json_as_str, json_as_bool, json_as_u64, json_number_u64,
    lemma_items_view, members_insert};
use crate::types::{str_equal, StepUpdate, Step, StepType, StepStatus, StepState, StepSource, StepTarget,
    ToolCall, ToolResult, ToolResponse, UsageMetadata, BuiltinTools, tool_name, InputEvent, ToolConfirmation,
    UserQuestionsRequest, AskQuestionOption, AskQuestionEntry, AskQuestionInteractionSpec, UserQuestionAnswer,
    UserQuestionsResponse, QuestionsResponseInner, TrajectoryStateUpdate, TrajectoryState, ContentPrimitive,
    UserInput, UserInputPart, MediaInput, Tool, SystemInstructions, GeminiConfig, CapabilitiesConfig,
    HarnessConfig, HarnessSideTools, Workspace, FilesystemWorkspace, FindToolConfig, RunCommandToolConfig,
    SubagentsConfig, UserQuestionsConfig, FileEditToolConfig, ViewFileToolConfig, WriteToFileToolConfig,
    GrepSearchToolConfig, ListDirToolConfig, GenerateImageToolConfig, is_wire_form};
use crate::hooks::HookResult;
use crate::keyed::KeyedMap;
use crate::policy::{Policy, Decision, Condition, confirm_run_command, workspace_only, clone_strings};
use crate::conversation::strings_view;
use crate::path::{is_absolute, path_is_absolute};

verus! {

// =============================================================================
// Paths on the wire
// =============================================================================

/// What `url::Url::parse` makes of `input`: `None` where it refuses the
/// text, else the URL's scheme and its path, as `Url::scheme` and
/// `Url::path` give them.
pub uninterp spec fn url_scheme_and_path(input: Seq<char>) -> Option<(Seq<char>, Seq<char>)>;

/// Parses `input` as a URL and gives its scheme and path.
///
/// Trusted: `url::Url::parse` followed by `Url::scheme` and `Url::path`; the
/// outcome is named by `url_scheme_and_path`, a function of the text alone.
#[verifier::external_body]
fn url_parts(input: &str) -> (r: Option<(String, String)>)
    ensures
        match r {
            Some((scheme, path)) => url_scheme_and_path(input@) == Some((scheme@, path@)),
            None => url_scheme_and_path(input@) is None,
        },
{
    match url::Url::parse(input) {
        Ok(u) => Some((u.scheme().to_string(), u.path().to_string())),
        Err(_) => None,
    }
}

/// `b` is an ASCII hexadecimal digit.
pub open spec fn is_hex_digit(b: u8) -> bool {
    (0x30 <= b && b <= 0x39) || (0x41 <= b && b <= 0x46) || (0x61 <= b && b <= 0x66)
}

/// The value of the hexadecimal digit `b`.
pub open spec fn hex_value(b: u8) -> int {
    if b <= 0x39 {
        b - 0x30
    } else if b <= 0x46 {
        b - 0x41 + 10
    } else {
        b - 0x61 + 10
    }
}

/// Percent-decoding of `bytes`: each `%` followed by two hexadecimal digits
/// stands for the byte they spell; every other byte stands for itself.
pub open spec fn percent_decoded(bytes: Seq<u8>) -> Seq<u8>
    decreases bytes.len(),
{
    if bytes.len() == 0 {
        Seq::empty()
    } else if bytes[0] == 0x25 && bytes.len() >= 3 && is_hex_digit(bytes[1]) && is_hex_digit(bytes[2]) {
        seq![(hex_value(bytes[1]) * 16 + hex_value(bytes[2])) as u8] + percent_decoded(bytes.skip(3))
    } else {
        seq![bytes[0]] + percent_decoded(bytes.skip(1))
    }
}

/// Percent-decodes the UTF-8 bytes of `s` and reads the outcome as UTF-8.
///
/// Trusted: `percent_encoding::percent_decode_str(s).decode_utf8()`. Its
/// source decodes `%` and two hexadecimal digits into one byte and keeps
/// every other byte, then succeeds exactly when the bytes are valid UTF-8.
#[verifier::external_body]
fn percent_decode_utf8(s: &str) -> (r: Option<String>)
    ensures
        match r {
            Some(t) => valid_utf8(percent_decoded(encode_utf8(s@)))
                && t@ == decode_utf8(percent_decoded(encode_utf8(s@))),
            None => !valid_utf8(percent_decoded(encode_utf8(s@))),
        },
{
    match percent_encoding::percent_decode_str(s).decode_utf8() {
        Ok(t) => Some(t.into_owned()),
        Err(_) => None,
    }
}

/// The path that a parsed `file://` URL stands for: the percent-decoded
/// path of a `file` URL when it decodes to UTF-8, else `path` unchanged.
pub open spec fn wire_path_from_parts(path: Seq<char>, parts: Option<(Seq<char>, Seq<char>)>) -> Seq<char> {
    match parts {
        Some((scheme, p)) =>
            if scheme == "file"@ && valid_utf8(percent_decoded(encode_utf8(p))) {
                decode_utf8(percent_decoded(encode_utf8(p)))
            } else {
                path
            },
        None => path,
    }
}

/// A path as the runtime sends it, read as a local path: a `file://` URL
/// becomes the path it names; anything else stays as it is.
pub open spec fn normalized_wire_path(path: Seq<char>) -> Seq<char> {
    if has_prefix(path, "file://"@) {
        wire_path_from_parts(path, url_scheme_and_path(path))
    } else {
        path
    }
}

/// The local path for `path`, given what URL parsing made of it.
pub fn wire_path_from_url(path: &str, parts: Option<(String, String)>) -> (r: String)
    ensures
        r@ == wire_path_from_parts(path@, match parts {
            Some((s, p)) => Some((s@, p@)),
            None => None,
        }),
{
    match parts {
        Some((scheme, p)) => {
            if str_equal(scheme.as_str(), "file") {
                match percent_decode_utf8(p.as_str()) {
                    Some(decoded) => decoded,
                    None => path.to_owned(),
                }
            } else {
                path.to_owned()
            }
        },
        None => path.to_owned(),
    }
}

/// Reads a path from the wire: `file://` URLs become local paths.
pub fn normalize_wire_path(path: &str) -> (r: String)
    ensures
        r@ == normalized_wire_path(path@),
{
    if starts_with(path, "file://") {
        let parts = url_parts(path);
        wire_path_from_url(path, parts)
    } else {
        path.to_owned()
    }
}

// =============================================================================
// Results of built-in tools
// =============================================================================

/// `v.get(k1).or_else(|| v.get(k2))`: the member under its snake-case name,
/// else under its camel-case one.
pub open spec fn json_get_either(v: JsonView, k1: Seq<char>, k2: Seq<char>) -> Option<JsonView> {
    match json_get(v, k1) {
        Some(x) => Some(x),
        None => json_get(v, k2),
    }
}

/// `o.and_then(|v| v.as_str())`.
pub open spec fn opt_as_str(o: Option<JsonView>) -> Option<Seq<char>> {
    match o {
        Some(v) => json_as_str(v),
        None => None,
    }
}

/// `o.and_then(|v| v.as_bool())`.
pub open spec fn opt_as_bool(o: Option<JsonView>) -> Option<bool> {
    match o {
        Some(v) => json_as_bool(v),
        None => None,
    }
}

/// `o.and_then(|v| v.as_u64())`.
pub open spec fn opt_as_u64(o: Option<JsonView>) -> Option<u64> {
    match o {
        Some(v) => json_as_u64(v),
        None => None,
    }
}

/// One entry of a directory listing, as the tool result reports it.
pub open spec fn listing_entry(r: JsonView) -> JsonView {
    JsonView::Object(seq![
        ("name"@, JsonView::String(match opt_as_str(json_get(r, "name"@)) {
            Some(s) => s,
            None => Seq::empty(),
        })),
        ("is_directory"@, JsonView::Bool(match opt_as_bool(json_get_either(r, "is_directory"@, "isDirectory"@)) {
            Some(b) => b,
            None => false,
        })),
        ("file_size"@, json_number_u64(match opt_as_u64(json_get_either(r, "file_size"@, "fileSize"@)) {
            Some(n) => n,
            None => 0,
        })),
    ])
}

/// The result that a finished built-in tool reports, read from the step
/// update's payloads in a fixed order: command output, directory entries,
/// found files, the number of search results, an edit summary, an image
/// name. `None` where none of them is there.
pub open spec fn builtin_tool_result(u: StepUpdate) -> Option<JsonView> {
    let rc = match u.run_command {
        Some(v) => opt_as_str(json_get_either(v@, "combined_output"@, "combinedOutput"@)),
        None => None,
    };
    let ld = match u.list_directory {
        Some(v) => match json_get(v@, "results"@) {
            Some(JsonView::Array(items)) => Some(items),
            _ => None,
        },
        None => None,
    };
    let ff = match u.find_file {
        Some(v) => opt_as_str(json_get(v@, "output"@)),
        None => None,
    };
    let sd = match u.search_directory {
        Some(v) => opt_as_u64(json_get_either(v@, "num_results"@, "numResults"@)),
        None => None,
    };
    let ef = match u.edit_file {
        Some(v) => json_get_either(v@, "diff_block"@, "diffBlock"@) is Some,
        None => false,
    };
    let gi = match u.generate_image {
        Some(v) => opt_as_str(json_get_either(v@, "image_name"@, "imageName"@)),
        None => None,
    };
    if rc is Some {
        Some(JsonView::Object(seq![("output"@, JsonView::String(rc->0))]))
    } else if ld is Some {
        Some(JsonView::Object(seq![("entries"@, JsonView::Array(ld->0.map_values(|r: JsonView| listing_entry(r))))]))
    } else if ff is Some {
        Some(JsonView::Object(seq![("output"@, JsonView::String(ff->0))]))
    } else if sd is Some {
        Some(JsonView::Object(seq![("num_results"@, json_number_u64(sd->0))]))
    } else if ef {
        Some(JsonView::Object(seq![("summary"@, JsonView::String(match u.text {
            Some(t) => t@,
            None => Seq::empty(),
        }))]))
    } else if gi is Some {
        Some(JsonView::Object(seq![("image_name"@, JsonView::String(gi->0))]))
    } else {
        None
    }
}

fn get_either<'a>(v: &'a JsonValue, k1: &str, k2: &str) -> (r: Option<&'a JsonValue>)
    ensures
        match json_get_either(v@, k1@, k2@) {
            Some(x) => r matches Some(y) && y@ == x,
            None => r is None,
        },
{
    match v.get(k1) {
        Some(x) => Some(x),
        None => v.get(k2),
    }
}

fn str_of(o: Option<&JsonValue>) -> (r: Option<String>)
    ensures
        match opt_as_str(match o { Some(v) => Some(v@), None => None }) {
            Some(s) => r matches Some(t) && t@ == s,
            None => r is None,
        },
{
    match o {
        Some(v) => match v.as_str() {
            Some(s) => Some(s.clone()),
            None => None,
        },
        None => None,
    }
}

fn entry_name(r: &JsonValue) -> (s: String)
    ensures
        s@ == (match opt_as_str(json_get(r@, "name"@)) {
            Some(t) => t,
            None => Seq::empty(),
        }),
{
    match str_of(r.get("name")) {
        Some(t) => t,
        None => String::new(),
    }
}

fn entry_is_dir(r: &JsonValue) -> (b: bool)
    ensures
        b == (match opt_as_bool(json_get_either(r@, "is_directory"@, "isDirectory"@)) {
            Some(x) => x,
            None => false,
        }),
{
    match get_either(r, "is_directory", "isDirectory") {
        Some(v) => match v.as_bool() {
            Some(x) => x,
            None => false,
        },
        None => false,
    }
}

fn entry_size(r: &JsonValue) -> (n: u64)
    ensures
        n == (match opt_as_u64(json_get_either(r@, "file_size"@, "fileSize"@)) {
            Some(x) => x,
            None => 0,
        }),
{
    match get_either(r, "file_size", "fileSize") {
        Some(v) => match v.as_u64() {
            Some(x) => x,
            None => 0,
        },
        None => 0,
    }
}

#[verifier::spinoff_prover]
fn listing_entry_exec(r: &JsonValue) -> (e: JsonValue)
    ensures
        e@ == listing_entry(r@),
{
    let name = entry_name(r);
    let is_dir = entry_is_dir(r);
    let size = entry_size(r);
    let mut members: Vec<(String, JsonValue)> = Vec::new();
    members.push(("name".to_owned(), JsonValue::String(name)));
    members.push(("is_directory".to_owned(), JsonValue::Bool(is_dir)));
    members.push(("file_size".to_owned(), JsonValue::from_u64(size)));
    proof {
        crate::json::lemma_members_view(members@);
        assert(crate::json::members_view(members@) =~= listing_entry(r@)->Object_0);
    }
    JsonValue::Object(members)
}

/// Reads the result of a finished built-in tool from its step update.
pub fn extract_builtin_tool_result(u: &StepUpdate) -> (r: Option<JsonValue>)
    ensures
        match builtin_tool_result(*u) {
            Some(x) => r matches Some(y) && y@ == x,
            None => r is None,
        },
{
    if let Some(rc) = &u.run_command {
        if let Some(out) = str_of(get_either(rc, "combined_output", "combinedOutput")) {
            return Some(JsonValue::object1("output", JsonValue::String(out)));
        }
    }
    if let Some(ld) = &u.list_directory {
        if let Some(results) = ld.get("results") {
            if let Some(items) = results.as_array() {
                let mut entries: Vec<JsonValue> = Vec::new();
                let mut i: usize = 0;
                while i < items.len()
                    invariant
                        i <= items@.len(),
                        entries@.len() == i,
                        forall|k: int| 0 <= k < i ==> (#[trigger] entries@[k])@ == listing_entry(items@[k]@),
                    decreases items@.len() - i,
                {
                    let e = listing_entry_exec(&items[i]);
                    entries.push(e);
                    i = i + 1;
                }
                let ghost results_items = results@->Array_0;
                let arr = JsonValue::Array(entries);
                proof {
                    lemma_items_view(entries@);
                    assert(crate::json::items_view(entries@) =~= results_items.map_values(|r: JsonView| listing_entry(r)));
                }
                return Some(JsonValue::object1("entries", arr));
            }
        }
    }
    if let Some(ff) = &u.find_file {
        if let Some(out) = str_of(ff.get("output")) {
            return Some(JsonValue::object1("output", JsonValue::String(out)));
        }
    }
    if let Some(sd) = &u.search_directory {
        if let Some(v) = get_either(sd, "num_results", "numResults") {
            if let Some(n) = v.as_u64() {
                return Some(JsonValue::object1("num_results", JsonValue::from_u64(n)));
            }
        }
    }
    if let Some(ef) = &u.edit_file {
        if get_either(ef, "diff_block", "diffBlock").is_some() {
            let text = match &u.text {
                Some(t) => t.clone(),
                None => String::new(),
            };
            return Some(JsonValue::object1("summary", JsonValue::String(text)));
        }
    }
    if let Some(gi) = &u.generate_image {
        if let Some(name) = str_of(get_either(gi, "image_name", "imageName")) {
            return Some(JsonValue::object1("image_name", JsonValue::String(name)));
        }
    }
    None
}

// =============================================================================
// From step updates to steps
// =============================================================================

/// The text of an optional string, empty where there is none.
pub open spec fn opt_text(o: Option<String>) -> Seq<char> {
    match o {
        Some(t) => t@,
        None => Seq::empty(),
    }
}

/// The id of a step: `trajectory:index`, or the bare index where the
/// trajectory id is empty.
pub open spec fn step_id_for(traj: Seq<char>, idx: u32) -> Seq<char> {
    if traj.len() > 0 {
        traj + ":"@ + decimal(idx as nat)
    } else {
        decimal(idx as nat)
    }
}

/// The status a step takes from the state of its update.
pub open spec fn status_for_state(s: StepState) -> StepStatus {
    match s {
        StepState::Active => StepStatus::Active,
        StepState::Done => StepStatus::Done,
        StepState::WaitingForUser => StepStatus::WaitingForUser,
        StepState::Error => StepStatus::Error,
        StepState::Unspecified => StepStatus::Unknown,
    }
}

/// The update carries the payload of a tool call.
pub open spec fn has_tool_payload(u: StepUpdate) -> bool {
    ||| u.list_directory is Some
    ||| u.find_file is Some
    ||| u.search_directory is Some
    ||| u.view_file is Some
    ||| u.create_file is Some
    ||| u.edit_file is Some
    ||| u.run_command is Some
    ||| u.invoke_subagent is Some
    ||| u.generate_image is Some
}

/// The kind of step an update describes.
pub open spec fn step_type_for(u: StepUpdate) -> StepType {
    if u.compaction is Some {
        StepType::Compaction
    } else if u.finish is Some {
        StepType::Finish
    } else if has_tool_payload(u) {
        StepType::ToolCall
    } else if opt_text(u.text).len() > 0 {
        StepType::TextResponse
    } else {
        StepType::Unknown
    }
}

/// The built-in tool whose payload the update carries, with that payload:
/// the first present in a fixed order.
pub open spec fn active_tool(u: StepUpdate) -> Option<(BuiltinTools, JsonValue)> {
    if u.list_directory is Some {
        Some((BuiltinTools::ListDir, u.list_directory->0))
    } else if u.search_directory is Some {
        Some((BuiltinTools::SearchDir, u.search_directory->0))
    } else if u.find_file is Some {
        Some((BuiltinTools::FindFile, u.find_file->0))
    } else if u.view_file is Some {
        Some((BuiltinTools::ViewFile, u.view_file->0))
    } else if u.create_file is Some {
        Some((BuiltinTools::CreateFile, u.create_file->0))
    } else if u.edit_file is Some {
        Some((BuiltinTools::EditFile, u.edit_file->0))
    } else if u.run_command is Some {
        Some((BuiltinTools::RunCommand, u.run_command->0))
    } else if u.invoke_subagent is Some {
        Some((BuiltinTools::StartSubagent, u.invoke_subagent->0))
    } else if u.generate_image is Some {
        Some((BuiltinTools::GenerateImage, u.generate_image->0))
    } else if u.finish is Some {
        Some((BuiltinTools::Finish, u.finish->0))
    } else {
        None
    }
}

/// The argument names under which tools pass a path.
pub open spec fn wire_path_keys() -> Seq<Seq<char>> {
    seq!["path"@, "file_path"@, "TargetFile"@, "directory_path"@]
}

/// Tool arguments with each string path argument (of `keys`, in order)
/// read as a local path, and the last such path.
pub open spec fn normalize_path_args(args: JsonView, keys: Seq<Seq<char>>) -> (JsonView, Option<Seq<char>>)
    decreases keys.len(),
{
    if keys.len() == 0 {
        (args, None)
    } else {
        let prev = normalize_path_args(args, keys.drop_last());
        let a = prev.0;
        let k = keys.last();
        match (a, opt_as_str(json_get(a, k))) {
            (JsonView::Object(ms), Some(val)) => (
                JsonView::Object(members_insert(ms, k, JsonView::String(normalized_wire_path(val)))),
                Some(normalized_wire_path(val)),
            ),
            _ => prev,
        }
    }
}

/// Law: a path that is not a `file://` URL is read as it stands.
pub proof fn lemma_plain_path_unchanged(path: Seq<char>)
    ensures
        !has_prefix(path, "file://"@) ==> normalized_wire_path(path) == path,
{
}

/// One more key of normalization: the arguments after `keys` are those
/// after all but the last key, with the last key's string (if any) read as a
/// local path.
proof fn lemma_normalize_last_key(args: JsonView, keys: Seq<Seq<char>>)
    requires
        keys.len() > 0,
    ensures
        ({
            let prev = normalize_path_args(args, keys.drop_last()).0;
            let last = keys.last();
            let now = normalize_path_args(args, keys).0;
            &&& prev is Object <==> now is Object
            &&& opt_as_str(json_get(prev, last)) is Some ==> json_get(now, last)
                == Some(JsonView::String(normalized_wire_path(opt_as_str(json_get(prev, last))->0)))
            &&& forall|k: Seq<char>| k != last ==> #[trigger] json_get(now, k) == json_get(prev, k)
        }),
{
    let prev = normalize_path_args(args, keys.drop_last()).0;
    let last = keys.last();
    match (prev, opt_as_str(json_get(prev, last))) {
        (JsonView::Object(ms), Some(val)) => {
            let nv = JsonView::String(normalized_wire_path(val));
            crate::json::lemma_get_after_insert(ms, last, nv);
            assert forall|k: Seq<char>| k != last implies #[trigger] json_get(normalize_path_args(args, keys).0, k)
                == json_get(prev, k) by {
                crate::json::lemma_insert_keeps_others(ms, last, nv, k);
            }
        },
        _ => {
            if prev is Object {
                assert(opt_as_str(json_get(prev, last)) is None);
            } else {
                assert(json_get(prev, last) is None);
            }
        },
    }
}

/// Law: normalizing the path arguments (under `keys`) leaves every other
/// argument as it was.
pub proof fn lemma_path_args_keep_others(args: JsonView, keys: Seq<Seq<char>>, k: Seq<char>)
    requires
        !keys.contains(k),
    ensures
        json_get(normalize_path_args(args, keys).0, k) == json_get(args, k),
    decreases keys.len(),
{
    if keys.len() > 0 {
        let init = keys.drop_last();
        assert(!init.contains(k)) by {
            if init.contains(k) {
                let j = choose|j: int| 0 <= j < init.len() && init[j] == k;
                assert(keys[j] == k);
            }
        }
        assert(k != keys.last()) by {
            assert(keys[keys.len() - 1] == keys.last());
        }
        lemma_path_args_keep_others(args, init, k);
        lemma_normalize_last_key(args, keys);
    }
}

/// Law: with distinct `keys`, each path argument that holds a string holds,
/// after normalization, that string read as a local path.
pub proof fn lemma_path_args_normalized(args: JsonView, keys: Seq<Seq<char>>, i: int)
    requires
        forall|a: int, b: int| 0 <= a < b < keys.len() ==> keys[a] != keys[b],
        0 <= i < keys.len(),
        opt_as_str(json_get(args, keys[i])) is Some,
    ensures
        json_get(normalize_path_args(args, keys).0, keys[i])
            == Some(JsonView::String(normalized_wire_path(opt_as_str(json_get(args, keys[i]))->0))),
    decreases keys.len(),
{
    let init = keys.drop_last();
    let last = keys.last();
    lemma_normalize_last_key(args, keys);
    if i == keys.len() - 1 {
        assert(!init.contains(last)) by {
            if init.contains(last) {
                let j = choose|j: int| 0 <= j < init.len() && init[j] == last;
                assert(keys[j] == last && keys[keys.len() - 1] == last);
            }
        }
        lemma_path_args_keep_others(args, init, last);
    } else {
        assert forall|a: int, b: int| 0 <= a < b < init.len() implies init[a] != init[b] by {
            assert(init[a] == keys[a] && init[b] == keys[b]);
        }
        assert(init[i] == keys[i]);
        assert(keys[i] != last) by {
            assert(keys[keys.len() - 1] == last);
        }
        lemma_path_args_normalized(args, init, i);
    }
}

/// Law: when a step's tool call is built, its path arguments (`path`,
/// `file_path`, `TargetFile`, `directory_path`) that hold strings are read
/// as local paths, and its other arguments are passed on unchanged.
pub proof fn lemma_wire_path_args_normalized(args: JsonView)
    ensures
        forall|k: Seq<char>| !wire_path_keys().contains(k) ==> #[trigger] json_get(
            normalize_path_args(args, wire_path_keys()).0, k) == json_get(args, k),
        forall|i: int| 0 <= i < 4 && opt_as_str(json_get(args, #[trigger] wire_path_keys()[i])) is Some
            ==> json_get(normalize_path_args(args, wire_path_keys()).0, wire_path_keys()[i])
                == Some(JsonView::String(normalized_wire_path(opt_as_str(json_get(args, wire_path_keys()[i]))->0))),
{
    reveal_strlit("path");
    reveal_strlit("file_path");
    reveal_strlit("TargetFile");
    reveal_strlit("directory_path");
    let keys = wire_path_keys();
    assert(keys[0].len() == 4 && keys[1].len() == 9 && keys[2].len() == 10 && keys[3].len() == 14);
    assert forall|k: Seq<char>| !keys.contains(k) implies #[trigger] json_get(
        normalize_path_args(args, keys).0, k) == json_get(args, k) by {
        lemma_path_args_keep_others(args, keys, k);
    }
    assert forall|i: int| 0 <= i < 4 && opt_as_str(json_get(args, #[trigger] keys[i])) is Some
        implies json_get(normalize_path_args(args, keys).0, keys[i])
            == Some(JsonView::String(normalized_wire_path(opt_as_str(json_get(args, keys[i]))->0))) by {
        lemma_path_args_normalized(args, keys, i);
    }
}

/// `tc` calls `name` with `args` after path normalization, under `id`.
pub open spec fn normalized_call(tc: ToolCall, id: Seq<char>, name: Seq<char>, args: JsonView) -> bool {
    let n = normalize_path_args(args, wire_path_keys());
    &&& tc.id matches Some(i) && i@ == id
    &&& tc.name@ == name
    &&& tc.args@ == n.0
    &&& tc.arguments_json is None
    &&& match n.1 {
        Some(p) => tc.canonical_path matches Some(c) && c@ == p,
        None => tc.canonical_path is None,
    }
}

/// The text that a finishing update offers as structured output, if any.
pub open spec fn finish_output(u: StepUpdate) -> Option<Seq<char>> {
    if u.compaction is None {
        match u.finish {
            Some(f) => opt_as_str(json_get(f@, "output_string"@)),
            None => None,
        }
    } else {
        None
    }
}

/// `s` is the step that the update `u` describes, given the usage of its
/// event and what parsing the finish output as JSON gave.
pub open spec fn step_for_update(s: Step, u: StepUpdate, usage: Option<UsageMetadata>,
    parsed_output: Option<JsonView>) -> bool
{
    let id = step_id_for(opt_text(u.trajectory_id), u.step_index);
    &&& s.id@ == id
    &&& s.step_index == u.step_index
    &&& s.step_type == step_type_for(u)
    &&& s.source == u.source
    &&& s.target == u.target
    &&& s.status == status_for_state(u.state)
    &&& s.content@ == opt_text(u.text)
    &&& s.content_delta@ == opt_text(u.text_delta)
    &&& s.thinking@ == opt_text(u.thinking)
    &&& s.thinking_delta@ == opt_text(u.thinking_delta)
    &&& s.usage_metadata == usage
    &&& s.error@ == Seq::<char>::empty()
    &&& s.is_complete_response is None
    &&& match (finish_output(u), parsed_output) {
        (Some(_), Some(p)) => s.structured_output matches Some(o) && o@ == p,
        _ => s.structured_output is None,
    }
    &&& match active_tool(u) {
        Some((t, args)) => s.tool_calls@.len() == 1
            && normalized_call(s.tool_calls@[0], id, tool_name(t), args@),
        None => s.tool_calls@.len() == 0,
    }
}

fn text_or_empty(o: &Option<String>) -> (r: String)
    ensures
        r@ == opt_text(*o),
{
    match o {
        Some(t) => t.clone(),
        None => String::new(),
    }
}

/// The id of the step at `idx` in the trajectory `traj`.
pub fn step_id(traj: &str, idx: u32) -> (r: String)
    ensures
        r@ == step_id_for(traj@, idx),
{
    let n = u64_to_decimal(idx as u64);
    if traj.is_empty() {
        n
    } else {
        let mut s = traj.to_owned();
        s.append(":");
        s.append(n.as_str());
        s
    }
}

/// Normalizes the path arguments of a tool call; gives the last path found.
pub fn normalize_call_paths(args: &mut JsonValue) -> (r: Option<String>)
    ensures
        final(args)@ == normalize_path_args(old(args)@, wire_path_keys()).0,
        match normalize_path_args(old(args)@, wire_path_keys()).1 {
            Some(p) => r matches Some(c) && c@ == p,
            None => r is None,
        },
{
    let keys: [&str; 4] = ["path", "file_path", "TargetFile", "directory_path"];
    let ghost orig = args@;
    let ghost ks = wire_path_keys();
    proof {
        assert(keys@[0]@ == ks[0] && keys@[1]@ == ks[1] && keys@[2]@ == ks[2] && keys@[3]@ == ks[3]);
    }
    let mut canonical: Option<String> = None;
    let mut i: usize = 0;
    while i < 4
        invariant
            i <= 4,
            ks == wire_path_keys(),
            forall|k: int| 0 <= k < 4 ==> (#[trigger] keys@[k])@ == ks[k],
            args@ == normalize_path_args(orig, ks.take(i as int)).0,
            match normalize_path_args(orig, ks.take(i as int)).1 {
                Some(p) => canonical matches Some(c) && c@ == p,
                None => canonical is None,
            },
        decreases 4 - i,
    {
        proof {
            assert(ks.take(i + 1).drop_last() =~= ks.take(i as int));
            assert(ks.take(i + 1).last() == ks[i as int]);
        }
        let key = keys[i];
        match str_of(args.get(key)) {
            Some(val) => {
                let normalized = normalize_wire_path(val.as_str());
                args.insert_member(key, JsonValue::String(normalized.clone()));
                canonical = Some(normalized);
            },
            None => {},
        }
        i = i + 1;
    }
    proof {
        assert(ks.take(4) =~= ks);
    }
    canonical
}

fn tool_payload(u: &StepUpdate) -> (r: Option<(BuiltinTools, &JsonValue)>)
    ensures
        match active_tool(*u) {
            Some((t, a)) => r matches Some((t2, a2)) && t2 == t && *a2 == a,
            None => r is None,
        },
{
    if let Some(v) = &u.list_directory {
        Some((BuiltinTools::ListDir, v))
    } else if let Some(v) = &u.search_directory {
        Some((BuiltinTools::SearchDir, v))
    } else if let Some(v) = &u.find_file {
        Some((BuiltinTools::FindFile, v))
    } else if let Some(v) = &u.view_file {
        Some((BuiltinTools::ViewFile, v))
    } else if let Some(v) = &u.create_file {
        Some((BuiltinTools::CreateFile, v))
    } else if let Some(v) = &u.edit_file {
        Some((BuiltinTools::EditFile, v))
    } else if let Some(v) = &u.run_command {
        Some((BuiltinTools::RunCommand, v))
    } else if let Some(v) = &u.invoke_subagent {
        Some((BuiltinTools::StartSubagent, v))
    } else if let Some(v) = &u.generate_image {
        Some((BuiltinTools::GenerateImage, v))
    } else if let Some(v) = &u.finish {
        Some((BuiltinTools::Finish, v))
    } else {
        None
    }
}

fn type_for(u: &StepUpdate) -> (t: StepType)
    ensures
        t == step_type_for(*u),
{
    if u.compaction.is_some() {
        StepType::Compaction
    } else if u.finish.is_some() {
        StepType::Finish
    } else if u.list_directory.is_some() || u.find_file.is_some() || u.search_directory.is_some()
        || u.view_file.is_some() || u.create_file.is_some() || u.edit_file.is_some()
        || u.run_command.is_some() || u.invoke_subagent.is_some() || u.generate_image.is_some() {
        StepType::ToolCall
    } else {
        match &u.text {
            Some(t) => if t.as_str().is_empty() { StepType::Unknown } else { StepType::TextResponse },
            None => StepType::Unknown,
        }
    }
}

fn status_for(s: StepState) -> (r: StepStatus)
    ensures
        r == status_for_state(s),
{
    match s {
        StepState::Active => StepStatus::Active,
        StepState::Done => StepStatus::Done,
        StepState::WaitingForUser => StepStatus::WaitingForUser,
        StepState::Error => StepStatus::Error,
        StepState::Unspecified => StepStatus::Unknown,
    }
}

/// The text of a finishing update that is offered as structured output.
pub fn finish_output_text(u: &StepUpdate) -> (r: Option<String>)
    ensures
        match finish_output(*u) {
            Some(t) => r matches Some(x) && x@ == t,
            None => r is None,
        },
{
    if u.compaction.is_some() {
        return None;
    }
    match &u.finish {
        Some(f) => str_of(f.get("output_string")),
        None => None,
    }
}

/// Maps an update from the runtime to the step it describes. `usage` is the
/// usage reported with the event; `parsed_output` is what the finish output
/// text (see [`finish_output_text`]) parsed to as JSON, if it parsed.
pub fn step_from_update(u: &StepUpdate, usage: Option<UsageMetadata>, parsed_output: Option<JsonValue>)
    -> (s: Step)
    ensures
        step_for_update(s, *u, usage, match parsed_output {
            Some(p) => Some(p@),
            None => None,
        }),
        u.state == StepState::Active ==> s.status == StepStatus::Active,
        u.state == StepState::Done ==> s.status == StepStatus::Done,
        u.state == StepState::WaitingForUser ==> s.status == StepStatus::WaitingForUser,
        u.state == StepState::Error ==> s.status == StepStatus::Error,
        u.state == StepState::Unspecified ==> s.status == StepStatus::Unknown,
{
    let traj = text_or_empty(&u.trajectory_id);
    let id = step_id(traj.as_str(), u.step_index);
    let step_type = type_for(u);
    let structured_output = match finish_output_text(u) {
        Some(_) => parsed_output,
        None => None,
    };
    let mut tool_calls: Vec<ToolCall> = Vec::new();
    match tool_payload(u) {
        Some((tool, payload)) => {
            let mut args = payload.clone();
            let canonical_path = normalize_call_paths(&mut args);
            tool_calls.push(ToolCall {
                id: Some(id.clone()),
                name: tool.as_str().to_owned(),
                args,
                arguments_json: None,
                canonical_path,
            });
        },
        None => {},
    }
    Step {
        id,
        step_index: u.step_index,
        step_type,
        source: u.source,
        target: u.target,
        status: status_for(u.state),
        content: text_or_empty(&u.text),
        thinking: text_or_empty(&u.thinking),
        content_delta: text_or_empty(&u.text_delta),
        thinking_delta: text_or_empty(&u.thinking_delta),
        tool_calls,
        error: String::new(),
        is_complete_response: None,
        structured_output,
        usage_metadata: usage,
    }
}

// =============================================================================
// Confirmation requests
// =============================================================================

/// The action name of a confirmation request that names no built-in tool.
pub open spec fn host_request_name() -> Seq<char> {
    "pre_request_host_tool_request"@
}

/// Arguments with the request text added, where they are an object and the
/// update carries one.
pub open spec fn with_request_text(args: JsonView, request_text: Option<String>) -> JsonView {
    match (args, request_text) {
        (JsonView::Object(ms), Some(t)) => JsonView::Object(members_insert(ms, "request_text"@, JsonView::String(t@))),
        _ => args,
    }
}

/// The tool call that a confirmation request stands for: the built-in tool
/// whose payload the update carries, else a host request with the request's
/// own arguments; its id is always `trajectory:index`.
pub open spec fn confirmation_call(tc: ToolCall, u: StepUpdate, request: JsonView) -> bool {
    let (name, args) = match active_tool(u) {
        Some((t, a)) => (tool_name(t), a@),
        None => (host_request_name(), request),
    };
    normalized_call(tc, opt_text(u.trajectory_id) + ":"@ + decimal(u.step_index as nat), name,
        with_request_text(args, u.request_text))
}

/// Builds the tool call that a confirmation request asks about.
pub fn confirmation_tool_call(u: &StepUpdate, request: &JsonValue) -> (tc: ToolCall)
    ensures
        confirmation_call(tc, *u, request@),
{
    let (name, mut args) = match tool_payload(u) {
        Some((tool, payload)) => (tool.as_str().to_owned(), payload.clone()),
        None => ("pre_request_host_tool_request".to_owned(), request.clone()),
    };
    match &u.request_text {
        Some(t) => {
            if args.is_object() {
                args.insert_member("request_text", JsonValue::String(t.clone()));
            }
        },
        None => {},
    }
    let canonical_path = normalize_call_paths(&mut args);
    let mut id = text_or_empty(&u.trajectory_id);
    id.append(":");
    let n = u64_to_decimal(u.step_index as u64);
    id.append(n.as_str());
    ToolCall { id: Some(id), name, args, arguments_json: None, canonical_path }
}

/// A host request is confirmed without asking the hooks.
pub fn is_host_request(tc: &ToolCall) -> (b: bool)
    ensures
        b == (tc.name@ == host_request_name()),
{
    str_equal(tc.name.as_str(), "pre_request_host_tool_request")
}

/// What the pre-tool-call hooks decided; a failure of the hooks is a denial
/// with the failure's text.
pub fn decision_or_denial(r: Result<HookResult, String>) -> (h: HookResult)
    ensures
        match r {
            Ok(x) => h == x,
            Err(e) => !h.allow && h.message@ == e@,
        },
{
    match r {
        Ok(x) => x,
        Err(e) => HookResult { allow: false, message: e },
    }
}

/// An allowed built-in call is remembered until its step finishes; host
/// requests are not.
pub fn tracks_completion(allowed: bool, tc: &ToolCall) -> (b: bool)
    ensures
        b == (allowed && tc.name@ != host_request_name()),
{
    allowed && !is_host_request(tc)
}

/// An input event that carries nothing.
pub open spec fn empty_event(e: InputEvent) -> bool {
    &&& e.user_input is None
    &&& e.complex_user_input is None
    &&& e.tool_confirmation is None
    &&& e.tool_response is None
    &&& e.question_response is None
    &&& e.halt_request is None
    &&& e.automated_trigger is None
}

fn empty_input_event() -> (e: InputEvent)
    ensures
        empty_event(e),
{
    InputEvent {
        user_input: None,
        complex_user_input: None,
        tool_confirmation: None,
        tool_response: None,
        question_response: None,
        halt_request: None,
        automated_trigger: None,
    }
}

/// The answer to a confirmation request.
pub fn confirmation_event(trajectory_id: String, step_index: u32, accepted: bool) -> (e: InputEvent)
    ensures
        empty_event(InputEvent { tool_confirmation: None, ..e }),
        e.tool_confirmation matches Some(c) && c.trajectory_id@ == trajectory_id@
            && c.step_index == step_index && c.accepted == accepted,
{
    InputEvent {
        tool_confirmation: Some(ToolConfirmation { trajectory_id, step_index, accepted }),
        ..empty_input_event()
    }
}

// =============================================================================
// Question requests
// =============================================================================

/// The options of a question, numbered from 1.
pub open spec fn options_match(opts: Seq<AskQuestionOption>, choices: Seq<String>) -> bool {
    &&& opts.len() == choices.len()
    &&& forall|j: int| 0 <= j < choices.len() ==> (#[trigger] opts[j]).id@ == decimal((j + 1) as nat)
        && opts[j].text@ == choices[j]@
}

/// The interaction spec that the question hooks see for a request: each
/// question with its choices as numbered options.
pub open spec fn spec_for_request(spec: AskQuestionInteractionSpec, req: UserQuestionsRequest) -> bool {
    &&& spec.questions@.len() == req.questions@.len()
    &&& forall|i: int| 0 <= i < req.questions@.len() ==> {
        let q = #[trigger] spec.questions@[i];
        let mc = req.questions@[i].multiple_choice;
        &&& q.question@ == mc.question@
        &&& q.is_multi_select == mc.is_multi_select
        &&& options_match(q.options@, mc.choices@)
    }
}

/// Builds the interaction spec for a question request.
pub fn interaction_spec(req: &UserQuestionsRequest) -> (spec: AskQuestionInteractionSpec)
    ensures
        spec_for_request(spec, *req),
{
    let mut questions: Vec<AskQuestionEntry> = Vec::new();
    let mut i: usize = 0;
    while i < req.questions.len()
        invariant
            i <= req.questions@.len(),
            questions@.len() == i,
            forall|k: int| 0 <= k < i ==> {
                let q = #[trigger] questions@[k];
                let mc = req.questions@[k].multiple_choice;
                &&& q.question@ == mc.question@
                &&& q.is_multi_select == mc.is_multi_select
                &&& options_match(q.options@, mc.choices@)
            },
        decreases req.questions@.len() - i,
    {
        let mc = &req.questions[i].multiple_choice;
        let mut options: Vec<AskQuestionOption> = Vec::new();
        let mut j: usize = 0;
        while j < mc.choices.len()
            invariant
                j <= mc.choices@.len(),
                options@.len() == j,
                forall|k: int| 0 <= k < j ==> (#[trigger] options@[k]).id@ == decimal((k + 1) as nat)
                    && options@[k].text@ == mc.choices@[k]@,
            decreases mc.choices@.len() - j,
        {
            let id = u64_to_decimal(j as u64 + 1);
            options.push(AskQuestionOption { id, text: mc.choices[j].clone() });
            j = j + 1;
        }
        questions.push(AskQuestionEntry {
            question: mc.question.clone(),
            options,
            is_multi_select: mc.is_multi_select,
        });
        i = i + 1;
    }
    AskQuestionInteractionSpec { questions }
}

/// An answer that answers nothing.
pub open spec fn is_unanswered(a: UserQuestionAnswer) -> bool {
    a.unanswered && a.multiple_choice_answer is None
}

fn unanswered() -> (a: UserQuestionAnswer)
    ensures
        is_unanswered(a),
{
    UserQuestionAnswer { unanswered: true, multiple_choice_answer: None }
}

/// The answers sent back for a request of `count` questions, given what the
/// interaction hooks gave: the hook's answers in order where a hook answered
/// and allowed, every other question unanswered.
pub open spec fn answers_for(answers: Seq<UserQuestionAnswer>, count: nat,
    outcome: Result<(HookResult, Option<UserQuestionsResponse>), String>) -> bool
{
    &&& answers.len() == count
    &&& match outcome {
        Ok((h, Some(resp))) if h.allow => {
            &&& forall|i: int| 0 <= i < count && i < resp.response.answers@.len() ==>
                #[trigger] answers[i] == resp.response.answers@[i]
            &&& forall|i: int| resp.response.answers@.len() <= i < count ==> is_unanswered(#[trigger] answers[i])
        },
        _ => forall|i: int| 0 <= i < count ==> is_unanswered(#[trigger] answers[i]),
    }
}

/// Merges what the interaction hooks answered into one answer per question.
pub fn answers_for_request(count: usize,
    outcome: Result<(HookResult, Option<UserQuestionsResponse>), String>) -> (answers: Vec<UserQuestionAnswer>)
    ensures
        answers_for(answers@, count as nat, outcome),
{
    let mut answers: Vec<UserQuestionAnswer> = Vec::new();
    let mut i: usize = 0;
    while i < count
        invariant
            i <= count,
            answers@.len() == i,
            forall|k: int| 0 <= k < i ==> is_unanswered(#[trigger] answers@[k]),
        decreases count - i,
    {
        answers.push(unanswered());
        i = i + 1;
    }
    match outcome {
        Ok((h, Some(resp))) => {
            if h.allow {
                let mut given = resp.response.answers;
                let ghost given0 = given@;
                let n = if given.len() < count { given.len() } else { count };
                let mut k: usize = 0;
                while k < n
                    invariant
                        n <= count,
                        n <= given0.len(),
                        given@.len() == given0.len(),
                        answers@.len() == count,
                        k <= n,
                        forall|j: int| k <= j < given0.len() ==> #[trigger] given@[j] == given0[j],
                        forall|j: int| 0 <= j < k ==> #[trigger] answers@[j] == given0[j],
                        forall|j: int| k <= j < count ==> is_unanswered(#[trigger] answers@[j]),
                    decreases n - k,
                {
                    let mut tmp = unanswered();
                    given.set_and_swap(k, &mut tmp);
                    answers.set(k, tmp);
                    k = k + 1;
                }
            }
        },
        _ => {},
    }
    answers
}

/// The answer to a question request.
pub fn questions_event(trajectory_id: String, step_index: u32, answers: Vec<UserQuestionAnswer>)
    -> (e: InputEvent)
    ensures
        empty_event(InputEvent { question_response: None, ..e }),
        e.question_response matches Some(r) && r.trajectory_id@ == trajectory_id@
            && r.step_index == step_index && r.response.answers == answers,
{
    InputEvent {
        question_response: Some(UserQuestionsResponse {
            trajectory_id,
            step_index,
            response: QuestionsResponseInner { answers },
        }),
        ..empty_input_event()
    }
}

// =============================================================================
// What a step update calls for
// =============================================================================

/// The questions of a request, as the interaction hooks are asked them.
pub struct QuestionPlan {
    /// How many questions the request holds: one answer goes back for each.
    pub count: usize,
    /// What the hooks are asked; nothing where there is no question.
    pub spec: Option<AskQuestionInteractionSpec>,
}

/// The work that a step update calls for, besides passing its step on.
pub struct UpdateActions {
    /// A built-in call waiting for this step is finished: its result goes to
    /// the post-tool-call hooks.
    pub finish_pending: bool,
    /// A built-in call waiting for this step failed: the tool-error hooks
    /// are told.
    pub fail_pending: bool,
    /// The compaction hooks see this payload.
    pub compaction: Option<JsonValue>,
    /// The runtime waits for a confirmation of this call.
    pub confirmation: Option<ToolCall>,
    /// The runtime waits for answers to these questions.
    pub questions: Option<QuestionPlan>,
}

/// Decides what a step update calls for: a finished or failed step settles
/// the built-in call waiting for it; a compaction is shown to the compaction
/// hooks; a step waiting for the user asks for a confirmation or for
/// answers, as its payloads say.
pub fn actions_for_update(u: &StepUpdate) -> (a: UpdateActions)
    ensures
        a.finish_pending == (u.state == StepState::Done),
        a.fail_pending == (u.state == StepState::Error),
        match u.compaction {
            Some(c) => a.compaction matches Some(x) && x@ == c@,
            None => a.compaction is None,
        },
        match (u.state, u.tool_confirmation_request) {
            (StepState::WaitingForUser, Some(r)) => a.confirmation matches Some(tc) && confirmation_call(tc, *u, r@),
            _ => a.confirmation is None,
        },
        match (u.state, u.questions_request) {
            (StepState::WaitingForUser, Some(q)) => a.questions matches Some(p)
                && p.count == q.questions@.len()
                && (q.questions@.len() > 0 <==> p.spec is Some)
                && (p.spec matches Some(s) ==> spec_for_request(s, q)),
            _ => a.questions is None,
        },
{
    let waiting = u.state == StepState::WaitingForUser;
    let compaction = match &u.compaction {
        Some(c) => Some(c.clone()),
        None => None,
    };
    let confirmation = if waiting {
        match &u.tool_confirmation_request {
            Some(r) => Some(confirmation_tool_call(u, r)),
            None => None,
        }
    } else {
        None
    };
    let questions = if waiting {
        match &u.questions_request {
            Some(q) => {
                let count = q.questions.len();
                let spec = if count > 0 { Some(interaction_spec(q)) } else { None };
                Some(QuestionPlan { count, spec })
            },
            None => None,
        }
    } else {
        None
    };
    UpdateActions {
        finish_pending: u.state == StepState::Done,
        fail_pending: u.state == StepState::Error,
        compaction,
        confirmation,
        questions,
    }
}

// =============================================================================
// Idle tracking across the main trajectory and its subagents
// =============================================================================

/// What the connection knows of the conversation's trajectories.
pub struct TrackerView {
    /// The id of the main trajectory (empty until the runtime reports it).
    pub conversation_id: Seq<char>,
    /// The agent is idle: the turn is over.
    pub idle: bool,
    /// The main trajectory has gone idle in this turn.
    pub parent_idle: bool,
    /// The subagents that are running.
    pub active: Set<Seq<char>>,
    /// The last text each subagent answered with.
    pub responses: Map<Seq<char>, Seq<char>>,
}

/// `traj` is a subagent's trajectory: not the main one, once that is known.
pub open spec fn is_subagent_of(main: Seq<char>, traj: Seq<char>) -> bool {
    main.len() > 0 && traj != main
}

/// The state when a turn starts: nothing is idle and no subagent runs.
pub open spec fn after_begin_turn(v: TrackerView) -> TrackerView {
    TrackerView { idle: false, parent_idle: false, active: Set::empty(), ..v }
}

/// The state after a step update: the main trajectory's id is learnt when
/// an update names the same conversation and trajectory; a subagent's
/// model text is kept as its latest answer.
pub open spec fn after_step(v: TrackerView, u: StepUpdate) -> TrackerView {
    let traj = opt_text(u.trajectory_id);
    let content = opt_text(u.text);
    let conversation_id = match (u.cascade_id, u.trajectory_id) {
        (Some(c), Some(t)) => if c@ == t@ { c@ } else { v.conversation_id },
        _ => v.conversation_id,
    };
    let responses = if is_subagent_of(v.conversation_id, traj) && u.source == StepSource::Model
        && content.len() > 0 {
        v.responses.insert(traj, content)
    } else {
        v.responses
    };
    TrackerView { conversation_id, responses, ..v }
}

/// The state after a trajectory reports its state. A subagent that starts
/// running is added to the running ones; one that goes idle is removed, and
/// its answer is handed out; the main trajectory going idle is recorded.
/// The agent becomes idle once the main trajectory is idle and no subagent
/// runs.
pub open spec fn after_trajectory(v: TrackerView, traj: Seq<char>, state: TrajectoryState) -> TrackerView {
    let sub = is_subagent_of(v.conversation_id, traj);
    match state {
        TrajectoryState::Running => if sub {
            TrackerView { active: v.active.insert(traj), ..v }
        } else {
            v
        },
        TrajectoryState::Idle => {
            let active = if sub { v.active.remove(traj) } else { v.active };
            let responses = if sub { v.responses.remove(traj) } else { v.responses };
            let parent_idle = if sub { v.parent_idle } else { true };
            TrackerView {
                conversation_id: v.conversation_id,
                idle: v.idle || (parent_idle && active.is_empty()),
                parent_idle,
                active,
                responses,
            }
        },
        TrajectoryState::Unspecified => v,
    }
}

/// The answer a subagent leaves when it goes idle: its latest text, or
/// nothing.
pub open spec fn subagent_answer(v: TrackerView, traj: Seq<char>) -> Seq<char> {
    if v.responses.contains_key(traj) {
        v.responses[traj]
    } else {
        Seq::empty()
    }
}

/// What a trajectory state report calls for.
pub struct TrajectoryOutcome {
    /// A subagent went idle: its trajectory id and its answer.
    pub finished_subagent: Option<(String, String)>,
    /// The main trajectory is idle and no subagent runs after this report:
    /// waiters are woken and the end of the turn is marked in the step stream.
    pub settled: bool,
}

/// Tracks which trajectories are running, to tell when a turn is over.
pub struct TrajectoryTracker {
    conversation_id: String,
    idle: bool,
    parent_idle: bool,
    active_subagents: KeyedMap<String, ()>,
    subagent_responses: KeyedMap<String, String>,
}

impl View for TrajectoryTracker {
    type V = TrackerView;

    closed spec fn view(&self) -> TrackerView {
        TrackerView {
            conversation_id: self.conversation_id@,
            idle: self.idle,
            parent_idle: self.parent_idle,
            active: self.active_subagents.map().dom(),
            responses: self.subagent_responses.map().map_values(|s: String| s@),
        }
    }
}

impl TrajectoryTracker {
    /// The maps inside are well formed.
    pub closed spec fn wf(&self) -> bool {
        self.active_subagents.wf() && self.subagent_responses.wf()
            && self.active_subagents.map().dom().finite()
    }

    /// A tracker for a new connection: idle, with no trajectory known.
    pub fn new() -> (t: Self)
        ensures
            t.wf(),
            t@.conversation_id == Seq::<char>::empty(),
            t@.idle,
            t@.parent_idle,
            t@.active == Set::<Seq<char>>::empty(),
            t@.responses == Map::<Seq<char>, Seq<char>>::empty(),
    {
        let t = TrajectoryTracker {
            conversation_id: String::new(),
            idle: true,
            parent_idle: true,
            active_subagents: KeyedMap::new(),
            subagent_responses: KeyedMap::new(),
        };
        assert(t@.active =~= Set::<Seq<char>>::empty());
        assert(t@.responses =~= Map::<Seq<char>, Seq<char>>::empty());
        t
    }

    /// The id of the main trajectory.
    pub fn conversation_id(&self) -> (r: String)
        ensures
            r@ == self@.conversation_id,
    {
        self.conversation_id.clone()
    }

    /// Whether the agent is idle.
    pub fn is_idle(&self) -> (b: bool)
        ensures
            b == self@.idle,
    {
        self.idle
    }

    /// A turn starts.
    pub fn begin_turn(&mut self)
        requires
            old(self).wf(),
        ensures
            final(self).wf(),
            final(self)@ == after_begin_turn(old(self)@),
    {
        self.idle = false;
        self.parent_idle = false;
        self.active_subagents.clear();
        assert(self@.active =~= Set::<Seq<char>>::empty());
    }

    /// The turn ended without running (a pre-turn hook refused it).
    pub fn mark_idle(&mut self)
        ensures
            final(self).wf() == old(self).wf(),
            final(self)@ == (TrackerView { idle: true, ..old(self)@ }),
    {
        self.idle = true;
    }

    /// Takes note of a step update.
    pub fn observe_step(&mut self, u: &StepUpdate)
        requires
            old(self).wf(),
        ensures
            final(self).wf(),
            final(self)@ == after_step(old(self)@, *u),
    {
        let ghost v = self@;
        let main_id = self.conversation_id.clone();
        match (&u.cascade_id, &u.trajectory_id) {
            (Some(c), Some(t)) => {
                if str_equal(c.as_str(), t.as_str()) {
                    self.conversation_id = c.clone();
                }
            },
            _ => {},
        }
        let traj = text_or_empty(&u.trajectory_id);
        let content = text_or_empty(&u.text);
        let is_sub = !main_id.as_str().is_empty() && !str_equal(traj.as_str(), main_id.as_str());
        if is_sub && u.source == StepSource::Model && !content.as_str().is_empty() {
            let ghost before = self.subagent_responses.map();
            self.subagent_responses.insert(traj, content);
            proof {
                assert(self.subagent_responses.map().map_values(|s: String| s@)
                    =~= before.map_values(|s: String| s@).insert(opt_text(u.trajectory_id), opt_text(u.text)));
            }
        }
        assert(self@ =~= after_step(v, *u));
    }

    /// Takes note of a trajectory's state; says what the report calls for.
    pub fn observe_trajectory(&mut self, update: &TrajectoryStateUpdate) -> (out: TrajectoryOutcome)
        requires
            old(self).wf(),
        ensures
            final(self).wf(),
            final(self)@ == after_trajectory(old(self)@, update.trajectory_id@, update.state),
            out.settled == (update.state == TrajectoryState::Idle && final(self)@.parent_idle
                && final(self)@.active.is_empty()),
            match out.finished_subagent {
                Some((t, answer)) => update.state == TrajectoryState::Idle
                    && is_subagent_of(old(self)@.conversation_id, update.trajectory_id@)
                    && t@ == update.trajectory_id@
                    && answer@ == subagent_answer(old(self)@, update.trajectory_id@),
                None => !(update.state == TrajectoryState::Idle
                    && is_subagent_of(old(self)@.conversation_id, update.trajectory_id@)),
            },
    {
        let ghost v = self@;
        let traj = &update.trajectory_id;
        let is_sub = !self.conversation_id.as_str().is_empty()
            && !str_equal(traj.as_str(), self.conversation_id.as_str());
        match update.state {
            TrajectoryState::Running => {
                if is_sub {
                    self.active_subagents.insert(traj.clone(), ());
                    assert(self@.active =~= v.active.insert(traj@));
                }
                assert(self@ =~= after_trajectory(v, traj@, update.state));
                TrajectoryOutcome { finished_subagent: None, settled: false }
            },
            TrajectoryState::Idle => {
                let mut finished: Option<(String, String)> = None;
                if is_sub {
                    self.active_subagents.remove(traj);
                    let ghost before = self.subagent_responses.map();
                    let answer = match self.subagent_responses.remove(traj) {
                        Some(a) => a,
                        None => String::new(),
                    };
                    proof {
                        assert(self@.active =~= v.active.remove(traj@));
                        assert(self@.responses =~= v.responses.remove(traj@));
                    }
                    finished = Some((traj.clone(), answer));
                } else {
                    self.parent_idle = true;
                }
                let settled = self.parent_idle && self.active_subagents.is_empty();
                if settled {
                    self.idle = true;
                }
                assert(self@ =~= after_trajectory(v, traj@, update.state));
                TrajectoryOutcome { finished_subagent: finished, settled }
            },
            TrajectoryState::Unspecified => {
                TrajectoryOutcome { finished_subagent: None, settled: false }
            },
        }
    }
}

/// Law: a step reports the state of its update under the same name: an
/// active step is active, a finished one done, one that waits for the user
/// waiting, a failed one an error; an update with no state gives an unknown
/// status.
pub proof fn lemma_step_status_names_state(s: Step, u: StepUpdate, usage: Option<UsageMetadata>,
    parsed_output: Option<JsonView>)
    requires
        step_for_update(s, u, usage, parsed_output),
    ensures
        u.state == StepState::Active ==> s.status == StepStatus::Active,
        u.state == StepState::Done ==> s.status == StepStatus::Done,
        u.state == StepState::WaitingForUser ==> s.status == StepStatus::WaitingForUser,
        u.state == StepState::Error ==> s.status == StepStatus::Error,
        u.state == StepState::Unspecified ==> s.status == StepStatus::Unknown,
        s.status != StepStatus::Canceled,
{
}

/// Law: a step's kind follows what its update carries, in this order of
/// precedence: a compaction, a finish, a built-in tool call, then text; an
/// update with none of them is of unknown kind. Its id is the trajectory id,
/// a colon and the step index in decimal (the bare index where the update
/// names no trajectory), and its texts are the update's.
pub proof fn lemma_step_kind_and_id(s: Step, u: StepUpdate, usage: Option<UsageMetadata>,
    parsed_output: Option<JsonView>)
    requires
        step_for_update(s, u, usage, parsed_output),
    ensures
        u.compaction is Some ==> s.step_type == StepType::Compaction,
        u.compaction is None && u.finish is Some ==> s.step_type == StepType::Finish,
        u.compaction is None && u.finish is None && has_tool_payload(u) ==> s.step_type == StepType::ToolCall,
        u.compaction is None && u.finish is None && !has_tool_payload(u) && opt_text(u.text).len() > 0
            ==> s.step_type == StepType::TextResponse,
        u.compaction is None && u.finish is None && !has_tool_payload(u) && opt_text(u.text).len() == 0
            ==> s.step_type == StepType::Unknown,
        opt_text(u.trajectory_id).len() > 0 ==> s.id@ == opt_text(u.trajectory_id) + ":"@
            + decimal(u.step_index as nat),
        opt_text(u.trajectory_id).len() == 0 ==> s.id@ == decimal(u.step_index as nat),
        s.content@ == opt_text(u.text),
        s.thinking@ == opt_text(u.thinking),
        s.usage_metadata == usage,
{
}

/// Law: a step update changes the known conversation id only when it names
/// both its conversation and its trajectory, and the two are the same; the
/// id is then that conversation's. Any other update leaves it as it was.
pub proof fn lemma_conversation_id_learnt(v: TrackerView, u: StepUpdate)
    ensures
        (u.cascade_id matches Some(c) && u.trajectory_id matches Some(t) && c@ == t@)
            ==> after_step(v, u).conversation_id == u.cascade_id->0@,
        !(u.cascade_id matches Some(c) && u.trajectory_id matches Some(t) && c@ == t@)
            ==> after_step(v, u).conversation_id == v.conversation_id,
{
}

/// Law: once the main trajectory's id is learnt, a subagent's step (whose
/// trajectory differs from its conversation) does not replace it, so the
/// main trajectory is still no subagent, and its going idle with no
/// subagent running still ends the turn.
pub proof fn lemma_subagent_step_keeps_main(v: TrackerView, first: StepUpdate, second: StepUpdate)
    requires
        first.cascade_id is Some,
        first.trajectory_id is Some,
        first.cascade_id->0@ == first.trajectory_id->0@,
        first.cascade_id->0@.len() > 0,
        second.cascade_id is Some,
        second.trajectory_id is Some,
        second.cascade_id->0@ != second.trajectory_id->0@,
    ensures
        after_step(after_step(v, first), second).conversation_id == first.cascade_id->0@,
        !is_subagent_of(after_step(after_step(v, first), second).conversation_id, first.trajectory_id->0@),
        second.trajectory_id->0@ != first.cascade_id->0@ ==> is_subagent_of(
            after_step(after_step(v, first), second).conversation_id, second.trajectory_id->0@),
        after_step(after_step(v, first), second).active.is_empty() ==> after_trajectory(
            after_step(after_step(v, first), second), first.trajectory_id->0@, TrajectoryState::Idle).idle,
{
}

/// Law: the text a subagent's model step carries is the answer handed out
/// when that subagent goes idle (a later such step replaces it); steps from
/// elsewhere than the model, and steps of the main trajectory, leave the
/// kept answers as they are.
pub proof fn lemma_subagent_text_is_its_answer(v: TrackerView, u: StepUpdate)
    ensures
        is_subagent_of(v.conversation_id, opt_text(u.trajectory_id)) && u.source == StepSource::Model
            && opt_text(u.text).len() > 0
            ==> subagent_answer(after_step(v, u), opt_text(u.trajectory_id)) == opt_text(u.text),
        u.source != StepSource::Model ==> after_step(v, u).responses == v.responses,
        !is_subagent_of(v.conversation_id, opt_text(u.trajectory_id)) ==> after_step(v, u).responses
            == v.responses,
        forall|t: Seq<char>| t != opt_text(u.trajectory_id) ==> #[trigger] subagent_answer(after_step(v, u), t)
            == subagent_answer(v, t),
{
}

/// Law: during a turn, the agent does not become idle while a subagent is
/// still running, whatever trajectory reports.
pub proof fn lemma_busy_while_subagent_runs(v: TrackerView, traj: Seq<char>, state: TrajectoryState)
    requires
        !v.idle,
    ensures
        !after_trajectory(v, traj, state).active.is_empty() ==> !after_trajectory(v, traj, state).idle,
{
}

/// Law: the main trajectory going idle while no subagent runs ends the turn.
pub proof fn lemma_main_idle_ends_turn(v: TrackerView, traj: Seq<char>)
    requires
        !is_subagent_of(v.conversation_id, traj),
        v.active.is_empty(),
    ensures
        after_trajectory(v, traj, TrajectoryState::Idle).idle,
        after_trajectory(v, traj, TrajectoryState::Idle).parent_idle,
{
}

/// Law: once a subagent goes idle its answer has been handed out and no
/// longer kept.
pub proof fn lemma_subagent_answer_taken(v: TrackerView, traj: Seq<char>)
    requires
        is_subagent_of(v.conversation_id, traj),
    ensures
        !after_trajectory(v, traj, TrajectoryState::Idle).responses.contains_key(traj),
        !after_trajectory(v, traj, TrajectoryState::Idle).active.contains(traj),
{
}

/// Law: a subagent that starts and then goes idle leaves the set of running
/// subagents as it found it.
pub proof fn lemma_subagent_round_trip(v: TrackerView, traj: Seq<char>)
    requires
        is_subagent_of(v.conversation_id, traj),
        !v.active.contains(traj),
    ensures
        after_trajectory(after_trajectory(v, traj, TrajectoryState::Running), traj, TrajectoryState::Idle).active
            == v.active,
{
    let w = after_trajectory(v, traj, TrajectoryState::Running);
    assert(w.conversation_id == v.conversation_id);
    assert(w.active.insert(traj).remove(traj) =~= v.active) by {
        assert(w.active =~= v.active.insert(traj));
    }
    assert(after_trajectory(w, traj, TrajectoryState::Idle).active =~= v.active);
}

/// Law: step updates never change whether the agent is idle or which
/// subagents run.
pub proof fn lemma_steps_keep_idleness(v: TrackerView, u: StepUpdate)
    ensures
        after_step(v, u).idle == v.idle,
        after_step(v, u).parent_idle == v.parent_idle,
        after_step(v, u).active == v.active,
{
}

// =============================================================================
// Built-in tools that finish
// =============================================================================

/// The key under which a built-in call waits for its step to finish.
pub fn pending_key(u: &StepUpdate) -> (k: (String, u32))
    ensures
        k.0@ == opt_text(u.trajectory_id),
        k.1 == u.step_index,
{
    (text_or_empty(&u.trajectory_id), u.step_index)
}

/// The result reported for a built-in call whose step finished: what the
/// update reports for the tool, else the step's text.
pub fn finished_builtin_result(call: &ToolCall, u: &StepUpdate, content: &str) -> (r: ToolResult)
    ensures
        r.name@ == call.name@,
        r.id == call.id,
        r.error is None,
        match builtin_tool_result(*u) {
            Some(x) => r.result@ == x,
            None => r.result@ == JsonView::String(content@),
        },
{
    let result = match extract_builtin_tool_result(u) {
        Some(x) => x,
        None => JsonValue::String(content.to_owned()),
    };
    let id = match &call.id {
        Some(i) => Some(i.clone()),
        None => None,
    };
    ToolResult { name: call.name.clone(), id, result, error: None }
}

/// The error reported for a built-in call whose step failed.
pub fn builtin_failure_message(u: &StepUpdate) -> (m: String)
    ensures
        m@ == (match u.error_message {
            Some(e) => e@,
            None => "Built-in tool failed"@,
        }),
{
    match &u.error_message {
        Some(e) => e.clone(),
        None => "Built-in tool failed".to_owned(),
    }
}

/// The result reported when a subagent goes idle: its answer, as the result
/// of the `start_subagent` tool.
pub fn subagent_result(trajectory_id: String, answer: String) -> (r: ToolResult)
    ensures
        r.name@ == tool_name(BuiltinTools::StartSubagent),
        r.id matches Some(i) && i@ == trajectory_id@,
        r.result@ == JsonView::String(answer@),
        r.error is None,
{
    ToolResult {
        name: BuiltinTools::StartSubagent.as_str().to_owned(),
        id: Some(trajectory_id),
        result: JsonValue::String(answer),
        error: None,
    }
}

// =============================================================================
// Custom tools
// =============================================================================

/// The first position at which `names` holds `name`.
pub open spec fn first_index_of(names: Seq<Seq<char>>, name: Seq<char>) -> Option<int> {
    if exists|i: int| 0 <= i < names.len() && names[i] == name {
        Some(choose|i: int| 0 <= i < names.len() && names[i] == name
            && forall|k: int| 0 <= k < i ==> names[k] != name)
    } else {
        None
    }
}

/// Finds the custom tool that a call names: the first registered under
/// that name.
pub fn custom_tool_index(names: &Vec<String>, name: &str) -> (r: Option<usize>)
    ensures
        match first_index_of(strings_view(names@), name@) {
            Some(i) => r == Some(i as usize),
            None => r is None,
        },
{
    let ghost ns = strings_view(names@);
    let mut i: usize = 0;
    while i < names.len()
        invariant
            i <= names@.len(),
            ns == strings_view(names@),
            ns.len() == names@.len(),
            forall|k: int| 0 <= k < i ==> ns[k] != name@,
        decreases names@.len() - i,
    {
        if str_equal(names[i].as_str(), name) {
            proof {
                assert(ns[i as int] == name@);
                let j = choose|j: int| 0 <= j < ns.len() && ns[j] == name@
                    && forall|k: int| 0 <= k < j ==> ns[k] != name@;
                if j < i {
                    assert(ns[j] != name@);
                } else if j > i {
                    assert(ns[i as int] != name@);
                }
            }
            return Some(i);
        }
        i = i + 1;
    }
    None
}

/// The step carries no text, output or usage.
pub open spec fn bare_body(s: Step) -> bool {
    &&& s.content@ == Seq::<char>::empty()
    &&& s.thinking@ == Seq::<char>::empty()
    &&& s.content_delta@ == Seq::<char>::empty()
    &&& s.thinking_delta@ == Seq::<char>::empty()
    &&& s.is_complete_response is None
    &&& s.structured_output is None
    &&& s.usage_metadata is None
}

/// The call of a custom tool, as hooks and steps see it.
pub fn custom_call(id: &str, name: &str, args: JsonValue) -> (tc: ToolCall)
    ensures
        tc.id matches Some(i) && i@ == id@,
        tc.name@ == name@,
        tc.args@ == args@,
        tc.arguments_json is None,
        tc.canonical_path is None,
{
    ToolCall {
        id: Some(id.to_owned()),
        name: name.to_owned(),
        args,
        arguments_json: None,
        canonical_path: None,
    }
}

/// The step that announces a custom tool call.
pub fn custom_call_step(id: &str, name: &str, args: JsonValue) -> (s: Step)
    ensures
        s.id@ == id@,
        s.step_index == 1,
        s.step_type == StepType::ToolCall,
        s.source == StepSource::Model,
        s.target == StepTarget::Environment,
        s.status == StepStatus::Active,
        s.tool_calls@.len() == 1,
        s.tool_calls@[0].id matches Some(i) && i@ == id@,
        s.tool_calls@[0].name@ == name@,
        s.tool_calls@[0].args@ == args@,
        s.tool_calls@[0].arguments_json is None,
        s.tool_calls@[0].canonical_path is None,
        bare_body(s),
        s.error@ == Seq::<char>::empty(),
{
    let mut tool_calls: Vec<ToolCall> = Vec::new();
    tool_calls.push(custom_call(id, name, args));
    Step {
        id: id.to_owned(),
        step_index: 1,
        step_type: StepType::ToolCall,
        source: StepSource::Model,
        target: StepTarget::Environment,
        status: StepStatus::Active,
        tool_calls,
        ..Step::default()
    }
}

/// The text sent back when the hooks refuse a custom tool call.
pub open spec fn denial_text(message: Seq<char>) -> Seq<char> {
    "Tool execution denied by hook policy: "@ + (if message.len() == 0 {
        "No reason provided"@
    } else {
        message
    })
}

/// `{"error": text}`.
pub open spec fn error_value(text: Seq<char>) -> JsonView {
    JsonView::Object(seq![("error"@, JsonView::String(text))])
}

/// The response to an error: `{"error": text}`.
pub fn error_response(text: String) -> (v: JsonValue)
    ensures
        v@ == error_value(text@),
{
    JsonValue::object1("error", JsonValue::String(text))
}

/// The response sent back when the hooks refuse a custom tool call.
pub fn denied_call_response(h: &HookResult) -> (v: JsonValue)
    ensures
        v@ == error_value(denial_text(h.message@)),
{
    let mut text = "Tool execution denied by hook policy: ".to_owned();
    if h.message.as_str().is_empty() {
        text.append("No reason provided");
    } else {
        text.append(h.message.as_str());
    }
    error_response(text)
}

/// What a custom tool's value is reported as: an object as it is, any other
/// value under `result`.
pub open spec fn tool_output_value(v: JsonView) -> JsonView {
    if v is Object {
        v
    } else {
        JsonView::Object(seq![("result"@, v)])
    }
}

/// Shapes the value a custom tool returned.
pub fn tool_output(v: JsonValue) -> (r: JsonValue)
    ensures
        r@ == tool_output_value(v@),
{
    if v.is_object() {
        v
    } else {
        JsonValue::object1("result", v)
    }
}

/// The value with which the tool-error hooks recovered a failed call: only
/// an allowed outcome that carries a value recovers it.
pub fn recovered_value(outcome: Result<(HookResult, Option<JsonValue>), String>) -> (r: Option<JsonValue>)
    ensures
        match outcome {
            Ok((h, Some(v))) => if h.allow { r == Some(v) } else { r is None },
            _ => r is None,
        },
{
    match outcome {
        Ok((h, Some(v))) => if h.allow { Some(v) } else { None },
        _ => None,
    }
}

/// The response sent for a custom tool call: its value, or its error as
/// `{"error": ...}`.
pub fn call_response(outcome: Result<JsonValue, String>) -> (v: JsonValue)
    ensures
        match outcome {
            Ok(x) => v == x,
            Err(e) => v@ == error_value(e@),
        },
{
    match outcome {
        Ok(x) => x,
        Err(e) => error_response(e),
    }
}

/// The event that carries a tool's response, as JSON text.
pub fn tool_response_event(id: &str, response_json: String) -> (e: InputEvent)
    ensures
        empty_event(InputEvent { tool_response: None, ..e }),
        e.tool_response matches Some(r) && r.id@ == id@ && r.response_json@ == response_json@,
{
    InputEvent {
        tool_response: Some(ToolResponse { id: id.to_owned(), response_json }),
        ..empty_input_event()
    }
}

// =============================================================================
// Turns
// =============================================================================

/// The step that marks in the stream that the agent went idle.
pub open spec fn is_sentinel_id(id: Seq<char>) -> bool {
    id == "IDLE_SENTINEL"@
}

/// The marker step put in the stream when the agent goes idle.
pub fn idle_sentinel() -> (s: Step)
    ensures
        is_sentinel_id(s.id@),
        s.step_index == 0,
        s.step_type == StepType::Unknown,
        s.source == StepSource::Unknown,
        s.target == StepTarget::Unknown,
        s.status == StepStatus::Unknown,
        s.tool_calls@.len() == 0,
        s.error@ == Seq::<char>::empty(),
        bare_body(s),
{
    Step { id: "IDLE_SENTINEL".to_owned(), ..Step::default() }
}

/// Whether a step from the stream is the idle marker.
pub fn is_idle_sentinel(s: &Step) -> (b: bool)
    ensures
        b == is_sentinel_id(s.id@),
{
    str_equal(s.id.as_str(), "IDLE_SENTINEL")
}

/// What a receiver is handed for what the stream gave: the marker ends the
/// turn.
pub fn received_step(s: Option<Step>) -> (r: Option<Step>)
    ensures
        match s {
            Some(x) => if is_sentinel_id(x.id@) { r is None } else { r == Some(x) },
            None => r is None,
        },
{
    match s {
        Some(x) => if is_idle_sentinel(&x) { None } else { Some(x) },
        None => None,
    }
}

/// A step of the model to the user that is done or failed ends the turn;
/// the post-turn hooks see its text.
pub open spec fn ends_turn_spec(s: Step) -> bool {
    s.source == StepSource::Model
        && (s.status == StepStatus::Done || s.status == StepStatus::Error)
        && s.target == StepTarget::User
}

/// Whether the post-turn hooks run for a received step.
pub fn ends_turn(s: &Step) -> (b: bool)
    ensures
        b == ends_turn_spec(*s),
{
    s.source == StepSource::Model
        && (s.status == StepStatus::Done || s.status == StepStatus::Error)
        && s.target == StepTarget::User
}

/// The error step put in the stream when a pre-turn hook refuses a prompt.
pub fn pre_turn_denied_step(message: String) -> (s: Step)
    ensures
        s.id@ == "PRE_TURN_DENIED"@,
        s.step_type == StepType::Unknown,
        s.source == StepSource::System,
        s.status == StepStatus::Error,
        s.error@ == message@,
        s.step_index == 0,
        s.target == StepTarget::Unknown,
        s.tool_calls@.len() == 0,
        bare_body(s),
{
    Step {
        id: "PRE_TURN_DENIED".to_owned(),
        step_type: StepType::Unknown,
        source: StepSource::System,
        status: StepStatus::Error,
        error: message,
        ..Step::default()
    }
}

/// The error a refused prompt is answered with.
pub fn pre_turn_denied_error(message: &str) -> (e: String)
    ensures
        e@ == "PreTurn hook denied: "@ + message@,
{
    let mut e = "PreTurn hook denied: ".to_owned();
    e.append(message);
    e
}

/// The error a failing session-start hook is answered with.
pub fn session_start_error(message: &str) -> (e: String)
    ensures
        e@ == "Session Start hook failed: "@ + message@,
{
    let mut e = "Session Start hook failed: ".to_owned();
    e.append(message);
    e
}

/// The parts of a prompt, as the runtime takes them.
pub open spec fn parts_for(parts: Seq<UserInputPart>, content: Seq<ContentPrimitive>) -> bool {
    &&& parts.len() == content.len()
    &&& forall|i: int| 0 <= i < content.len() ==> match content[i] {
        ContentPrimitive::Text(t) => (#[trigger] parts[i]).text == Some(t) && parts[i].media is None,
        ContentPrimitive::Media(m) => parts[i].text is None && media_of(parts[i].media, m),
    }
}

/// `x` carries the media `m`.
pub open spec fn media_of(x: Option<MediaInput>, m: crate::types::Media) -> bool {
    match x {
        Some(y) => y.mime_type == m.mime_type && y.data == m.data && y.description == m.description,
        None => false,
    }
}

/// A prompt sent part by part.
pub fn complex_input(content: Vec<ContentPrimitive>) -> (e: InputEvent)
    ensures
        empty_event(InputEvent { complex_user_input: None, ..e }),
        e.complex_user_input matches Some(u) && parts_for(u.parts@, content@),
{
    let mut rest = content;
    let ghost orig = rest@;
    let n = rest.len();
    // The parts are taken out in order: reversed once, then popped from the back.
    let mut queue: Vec<ContentPrimitive> = Vec::new();
    while rest.len() > 0
        invariant
            queue@.len() + rest@.len() == orig.len(),
            rest@ == orig.take(rest@.len() as int),
            forall|k: int| 0 <= k < queue@.len() ==> #[trigger] queue@[k] == orig[orig.len() - 1 - k],
        decreases rest@.len(),
    {
        let c = rest.pop().unwrap();
        proof {
            assert(rest@ =~= orig.take(rest@.len() as int));
        }
        queue.push(c);
    }
    let mut parts: Vec<UserInputPart> = Vec::new();
    let mut i: usize = 0;
    while i < n
        invariant
            n == orig.len(),
            i <= n,
            queue@.len() == n - i,
            parts@.len() == i,
            forall|k: int| 0 <= k < queue@.len() ==> #[trigger] queue@[k] == orig[orig.len() - 1 - k],
            parts_for(parts@, orig.take(i as int)),
        decreases n - i,
    {
        let c = queue.pop().unwrap();
        assert(c == orig[i as int]);
        let part = match c {
            ContentPrimitive::Text(t) => UserInputPart { text: Some(t), media: None },
            ContentPrimitive::Media(m) => UserInputPart {
                text: None,
                media: Some(MediaInput { mime_type: m.mime_type, data: m.data, description: m.description }),
            },
        };
        parts.push(part);
        proof {
            let t = orig.take(i + 1);
            assert forall|k: int| 0 <= k < t.len() implies match t[k] {
                ContentPrimitive::Text(x) => (#[trigger] parts@[k]).text == Some(x) && parts@[k].media is None,
                ContentPrimitive::Media(m) => parts@[k].text is None && media_of(parts@[k].media, m),
            } by {
                if k < i {
                    assert(t[k] == orig.take(i as int)[k]);
                }
            }
        }
        i = i + 1;
    }
    assert(orig.take(n as int) =~= orig);
    InputEvent {
        complex_user_input: Some(UserInput { parts }),
        ..empty_input_event()
    }
}

/// The event that sends a prompt: an absent prompt is sent as empty text, a
/// prompt of one text as plain text, any other part by part.
pub fn prompt_event(prompt: Option<Vec<ContentPrimitive>>) -> (e: InputEvent)
    ensures
        match prompt {
            None => {
                &&& empty_event(InputEvent { user_input: None, ..e })
                &&& e.user_input matches Some(t) && t@ == Seq::<char>::empty()
            },
            Some(c) => if c@.len() == 1 && c@[0] is Text {
                empty_event(InputEvent { user_input: None, ..e })
                    && e.user_input == Some(c@[0]->Text_0)
            } else {
                &&& empty_event(InputEvent { complex_user_input: None, ..e })
                &&& e.complex_user_input matches Some(u) && parts_for(u.parts@, c@)
            },
        },
{
    match prompt {
        None => InputEvent { user_input: Some(String::new()), ..empty_input_event() },
        Some(mut c) => {
            if c.len() == 1 {
                let ghost c0 = c@;
                let first = c.pop().unwrap();
                match first {
                    ContentPrimitive::Text(t) => InputEvent { user_input: Some(t), ..empty_input_event() },
                    other => {
                        c.push(other);
                        assert(c@ =~= c0);
                        complex_input(c)
                    },
                }
            } else {
                complex_input(c)
            }
        },
    }
}

/// The event that asks the runtime to stop the turn.
pub fn halt_event() -> (e: InputEvent)
    ensures
        empty_event(InputEvent { halt_request: None, ..e }),
        e.halt_request == Some(true),
{
    InputEvent { halt_request: Some(true), ..empty_input_event() }
}

/// The event that passes a notification to the agent.
pub fn trigger_event(message: &str) -> (e: InputEvent)
    ensures
        empty_event(InputEvent { automated_trigger: None, ..e }),
        e.automated_trigger matches Some(t) && t@ == message@,
{
    InputEvent { automated_trigger: Some(message.to_owned()), ..empty_input_event() }
}

// =============================================================================
// The configuration sent when a conversation starts
// =============================================================================

/// Whether a built-in tool is offered: the enabled list decides where there
/// is one, else the disabled list, else every tool is.
pub open spec fn tool_active(caps: CapabilitiesConfig, t: BuiltinTools) -> bool {
    match caps.enabled_tools {
        Some(e) => e@.contains(t),
        None => match caps.disabled_tools {
            Some(d) => !d@.contains(t),
            None => true,
        },
    }
}

fn list_contains(v: &Vec<BuiltinTools>, t: BuiltinTools) -> (b: bool)
    ensures
        b == v@.contains(t),
{
    let mut i: usize = 0;
    while i < v.len()
        invariant
            i <= v@.len(),
            forall|k: int| 0 <= k < i ==> v@[k] != t,
        decreases v@.len() - i,
    {
        if v[i] == t {
            return true;
        }
        i = i + 1;
    }
    false
}

/// Whether the configuration offers the built-in tool `t`.
pub fn is_tool_active(caps: &CapabilitiesConfig, t: BuiltinTools) -> (b: bool)
    ensures
        b == tool_active(*caps, t),
{
    match &caps.enabled_tools {
        Some(e) => list_contains(e, t),
        None => match &caps.disabled_tools {
            Some(d) => !list_contains(d, t),
            None => true,
        },
    }
}

/// The side tools the runtime offers: each built-in tool as the
/// configuration offers it; subagents only where they are also enabled.
pub open spec fn side_tools_for(h: HarnessSideTools, caps: CapabilitiesConfig) -> bool {
    &&& h.find.enabled == tool_active(caps, BuiltinTools::FindFile)
    &&& h.run_command.enabled == tool_active(caps, BuiltinTools::RunCommand)
    &&& h.subagents.enabled == (caps.enable_subagents && tool_active(caps, BuiltinTools::StartSubagent))
    &&& h.user_questions.enabled == tool_active(caps, BuiltinTools::AskQuestion)
    &&& h.file_edit.enabled == tool_active(caps, BuiltinTools::EditFile)
    &&& h.view_file.enabled == tool_active(caps, BuiltinTools::ViewFile)
    &&& h.write_to_file.enabled == tool_active(caps, BuiltinTools::CreateFile)
    &&& h.grep_search.enabled == tool_active(caps, BuiltinTools::SearchDir)
    &&& h.list_dir.enabled == tool_active(caps, BuiltinTools::ListDir)
    &&& h.generate_image.enabled == tool_active(caps, BuiltinTools::GenerateImage)
    &&& h.generate_image.model_name matches Some(m) && m@ == caps.image_model@
}

/// The configuration that opens a conversation.
pub fn harness_config(tools: Vec<Tool>, system_instructions: Option<SystemInstructions>,
    gemini: &GeminiConfig, workspaces: &Vec<String>, skills_paths: Vec<String>,
    caps: &CapabilitiesConfig, app_data_dir: String) -> (c: HarnessConfig)
    ensures
        c.tools == tools,
        c.system_instructions == system_instructions,
        c.cascade_id@ == Seq::<char>::empty(),
        c.gemini_config matches Some(w) && is_wire_form(w, *gemini),
        c.workspaces@.len() == workspaces@.len(),
        forall|i: int| 0 <= i < workspaces@.len() ==>
            (#[trigger] c.workspaces@[i]).filesystem_workspace.directory@ == normalized_wire_path(workspaces@[i]@),
        c.skills_paths == skills_paths,
        side_tools_for(c.harness_side_tools, *caps),
        c.compaction_threshold == (match caps.compaction_threshold {
            Some(n) => n,
            None => 0u32,
        }),
        c.finish_tool_schema_json@ == opt_text(caps.finish_tool_schema_json),
        c.app_data_dir == app_data_dir,
{
    let mut ws: Vec<Workspace> = Vec::new();
    let mut i: usize = 0;
    while i < workspaces.len()
        invariant
            i <= workspaces@.len(),
            ws@.len() == i,
            forall|k: int| 0 <= k < i ==>
                (#[trigger] ws@[k]).filesystem_workspace.directory@ == normalized_wire_path(workspaces@[k]@),
        decreases workspaces@.len() - i,
    {
        let directory = normalize_wire_path(workspaces[i].as_str());
        ws.push(Workspace { filesystem_workspace: FilesystemWorkspace { directory } });
        i = i + 1;
    }
    let side = HarnessSideTools {
        find: FindToolConfig { enabled: is_tool_active(caps, BuiltinTools::FindFile) },
        run_command: RunCommandToolConfig { enabled: is_tool_active(caps, BuiltinTools::RunCommand) },
        subagents: SubagentsConfig {
            enabled: caps.enable_subagents && is_tool_active(caps, BuiltinTools::StartSubagent),
        },
        user_questions: UserQuestionsConfig { enabled: is_tool_active(caps, BuiltinTools::AskQuestion) },
        file_edit: FileEditToolConfig { enabled: is_tool_active(caps, BuiltinTools::EditFile) },
        view_file: ViewFileToolConfig { enabled: is_tool_active(caps, BuiltinTools::ViewFile) },
        write_to_file: WriteToFileToolConfig { enabled: is_tool_active(caps, BuiltinTools::CreateFile) },
        grep_search: GrepSearchToolConfig { enabled: is_tool_active(caps, BuiltinTools::SearchDir) },
        list_dir: ListDirToolConfig { enabled: is_tool_active(caps, BuiltinTools::ListDir) },
        generate_image: GenerateImageToolConfig {
            enabled: is_tool_active(caps, BuiltinTools::GenerateImage),
            model_name: Some(caps.image_model.clone()),
        },
    };
    let compaction_threshold = match caps.compaction_threshold {
        Some(n) => n,
        None => 0,
    };
    HarnessConfig {
        tools,
        system_instructions,
        cascade_id: String::new(),
        gemini_config: Some(gemini.to_wire()),
        workspaces: ws,
        skills_paths,
        harness_side_tools: side,
        compaction_threshold,
        finish_tool_schema_json: text_or_empty(&caps.finish_tool_schema_json),
        app_data_dir,
    }
}

/// `base` joined with `tail` by `std::path::Path::join`, as text.
pub uninterp spec fn path_joined(base: Seq<char>, tail: Seq<char>) -> Seq<char>;

/// Joins two paths through `Path::join`.
///
/// Trusted: the result is named by `path_joined`, a function of the two
/// texts under the platform's path rules; nothing more is claimed.
#[verifier::external_body]
fn join_path(base: &str, tail: &str) -> (r: String)
    ensures
        r@ == path_joined(base@, tail@),
{
    std::path::Path::new(base).join(tail).to_string_lossy().into_owned()
}

/// Where the runtime keeps its data: the configured directory, else
/// `.gemini/antigravity` under the home directory (or under `~` when no home
/// is known), made absolute against the working directory where one is
/// known.
pub open spec fn app_data_location_spec(dir: Seq<char>, home: Option<Seq<char>>, cwd: Option<Seq<char>>)
    -> Seq<char>
{
    let p = if dir.len() == 0 {
        match home {
            Some(h) => path_joined(path_joined(h, ".gemini"@), "antigravity"@),
            None => "~/.gemini/antigravity"@,
        }
    } else {
        dir
    };
    if path_is_absolute(p) {
        p
    } else {
        match cwd {
            Some(c) => path_joined(c, p),
            None => p,
        }
    }
}

/// The runtime's data directory, given the configured one, the home
/// directory and the working directory (where they are known).
pub fn app_data_location(dir: &str, home: Option<String>, cwd: Option<String>) -> (r: String)
    ensures
        r@ == app_data_location_spec(dir@, match home {
            Some(h) => Some(h@),
            None => None,
        }, match cwd {
            Some(c) => Some(c@),
            None => None,
        }),
{
    let p = if dir.is_empty() {
        match home {
            Some(h) => {
                let g = join_path(h.as_str(), ".gemini");
                join_path(g.as_str(), "antigravity")
            },
            None => "~/.gemini/antigravity".to_owned(),
        }
    } else {
        dir.to_owned()
    };
    if is_absolute(p.as_str()) {
        p
    } else {
        match cwd {
            Some(c) => join_path(c.as_str(), p.as_str()),
            None => p,
        }
    }
}

/// The policies a session runs with: the given ones, or where there are
/// none, a denial of `run_command` before allowing everything; and where
/// there are workspaces, the file tools confined to the workspaces and the
/// data directory, ahead of all of them.
pub open spec fn session_policies_spec(r: Seq<Policy>, policies: Seq<Policy>, workspaces: Seq<Seq<char>>,
    app_data_path: Seq<char>) -> bool
{
    let off: int = if workspaces.len() > 0 { 3 } else { 0 };
    &&& r.len() == off + (if policies.len() > 0 { policies.len() as int } else { 2 })
    &&& workspaces.len() > 0 ==> {
        &&& r[0].tool@ == tool_name(BuiltinTools::ViewFile)
        &&& r[1].tool@ == tool_name(BuiltinTools::CreateFile)
        &&& r[2].tool@ == tool_name(BuiltinTools::EditFile)
        &&& forall|i: int| 0 <= i < 3 ==> {
            &&& (#[trigger] r[i]).decision == Decision::Deny
            &&& !r[i].has_ask_user
            &&& r[i].name@ == "workspace_only"@
            &&& r[i].when matches Some(Condition::OutsideWorkspaces(ws))
                && strings_view(ws@) == workspaces.push(app_data_path)
        }
    }
    &&& policies.len() > 0 ==> forall|i: int| 0 <= i < policies.len() ==> #[trigger] r[off + i] == policies[i]
    &&& policies.len() == 0 ==> {
        &&& r[off].tool@ == tool_name(BuiltinTools::RunCommand)
        &&& r[off].decision == Decision::Deny
        &&& r[off].when is None
        &&& !r[off].has_ask_user
        &&& r[off].name@ == "deny"@
        &&& r[off + 1].tool@ == "*"@
        &&& r[off + 1].decision == Decision::Approve
        &&& r[off + 1].when is None
        &&& !r[off + 1].has_ask_user
        &&& r[off + 1].name@ == "allow_all"@
    }
}

/// Composes the policies a session runs with.
pub fn session_policies(policies: Vec<Policy>, workspaces: &Vec<String>, app_data_path: String)
    -> (r: Vec<Policy>)
    ensures
        session_policies_spec(r@, policies@, strings_view(workspaces@), app_data_path@),
{
    let ghost given = policies@;
    let base = if policies.len() == 0 {
        confirm_run_command(false)
    } else {
        policies
    };
    if workspaces.len() == 0 {
        assert forall|i: int| 0 <= i < given.len() && given.len() > 0 implies #[trigger] base@[0 + i] == given[i] by {}
        return base;
    }
    let mut allowed = clone_strings(workspaces);
    let ghost before = allowed@;
    allowed.push(app_data_path);
    proof {
        assert(strings_view(allowed@) =~= strings_view(before).push(app_data_path@));
    }
    let mut r = workspace_only(allowed);
    let ghost head = r@;
    let ghost b = base@;
    let mut rest = base;
    r.append(&mut rest);
    assert(r@ =~= head + b);
    r
}

// =============================================================================
// Finding the runtime binary
// =============================================================================

/// The path below a virtual environment's `python*` directory where the
/// runtime is installed.
pub open spec fn site_binary(dir: Seq<char>) -> Seq<char> {
    path_joined(path_joined(path_joined(path_joined(path_joined(dir, "site-packages"@), "google"@),
        "antigravity"@), "bin"@), "localharness"@)
}

/// An entry of the virtual environment's `lib` directory that may hold the
/// runtime: a directory whose name starts with `python`.
pub open spec fn is_python_dir(entry: (Seq<char>, Seq<char>, bool)) -> bool {
    entry.2 && has_prefix(entry.1, "python"@)
}

/// The places where the runtime binary is looked for, in order: the path
/// the environment names; in the working directory's virtual environment,
/// each `python*` directory of `lib` (in the order they were listed), then
/// `bin`; then each directory on the search path.
pub open spec fn harness_candidates_spec(env_override: Option<Seq<char>>, cwd: Option<Seq<char>>,
    venv_lib_entries: Seq<(Seq<char>, Seq<char>, bool)>, path_dirs: Seq<Seq<char>>) -> Seq<Seq<char>>
{
    let first: Seq<Seq<char>> = match env_override {
        Some(p) => seq![p],
        None => Seq::empty(),
    };
    let venv: Seq<Seq<char>> = match cwd {
        Some(c) => venv_lib_entries.filter(|e: (Seq<char>, Seq<char>, bool)| is_python_dir(e))
            .map_values(|e: (Seq<char>, Seq<char>, bool)| site_binary(e.0))
            .push(path_joined(path_joined(path_joined(c, ".venv"@), "bin"@), "localharness"@)),
        None => Seq::empty(),
    };
    first + venv + path_dirs.map_values(|d: Seq<char>| path_joined(d, "localharness"@))
}

/// The error given when the runtime binary is nowhere to be found.
pub fn harness_not_found_error() -> (e: String)
    ensures
        e@ == "Could not find default localharness binary. Set ANTIGRAVITY_HARNESS_PATH or ensure it is installed in your virtual environment."@,
{
    "Could not find default localharness binary. Set ANTIGRAVITY_HARNESS_PATH or ensure it is installed in your virtual environment.".to_owned()
}

fn site_binary_exec(dir: &str) -> (r: String)
    ensures
        r@ == site_binary(dir@),
{
    let a = join_path(dir, "site-packages");
    let b = join_path(a.as_str(), "google");
    let c = join_path(b.as_str(), "antigravity");
    let d = join_path(c.as_str(), "bin");
    join_path(d.as_str(), "localharness")
}

/// Lists the places where the runtime binary is looked for. The entries of
/// the virtual environment's `lib` directory are given as path, file name,
/// and whether it is a directory.
pub fn harness_candidates(env_override: Option<String>, cwd: Option<String>,
    venv_lib_entries: &Vec<(String, String, bool)>, path_dirs: &Vec<String>) -> (r: Vec<String>)
    ensures
        strings_view(r@) == harness_candidates_spec(
            match env_override { Some(p) => Some(p@), None => None },
            match cwd { Some(c) => Some(c@), None => None },
            venv_lib_entries@.map_values(|e: (String, String, bool)| (e.0@, e.1@, e.2)),
            strings_view(path_dirs@)),
{
    let ghost entries = venv_lib_entries@.map_values(|e: (String, String, bool)| (e.0@, e.1@, e.2));
    let ghost dirs = strings_view(path_dirs@);
    let mut r: Vec<String> = Vec::new();
    let ghost first: Seq<Seq<char>> = match env_override { Some(ref p) => seq![p@], None => Seq::empty() };
    match env_override {
        Some(p) => { r.push(p); },
        None => {},
    }
    assert(strings_view(r@) =~= first);
    let ghost venv: Seq<Seq<char>> = match cwd {
        Some(ref c) => entries.filter(|e: (Seq<char>, Seq<char>, bool)| is_python_dir(e))
            .map_values(|e: (Seq<char>, Seq<char>, bool)| site_binary(e.0))
            .push(path_joined(path_joined(path_joined(c@, ".venv"@), "bin"@), "localharness"@)),
        None => Seq::empty(),
    };
    match cwd {
        Some(c) => {
            let ghost start = strings_view(r@);
            let mut i: usize = 0;
            while i < venv_lib_entries.len()
                invariant
                    i <= venv_lib_entries@.len(),
                    entries == venv_lib_entries@.map_values(|e: (String, String, bool)| (e.0@, e.1@, e.2)),
                    strings_view(r@) == start + entries.take(i as int)
                        .filter(|e: (Seq<char>, Seq<char>, bool)| is_python_dir(e))
                        .map_values(|e: (Seq<char>, Seq<char>, bool)| site_binary(e.0)),
                decreases venv_lib_entries@.len() - i,
            {
                let ghost before = strings_view(r@);
                let e = &venv_lib_entries[i];
                proof {
                    assert(entries.take(i + 1).drop_last() =~= entries.take(i as int));
                    assert(entries.take(i + 1).last() == (e.0@, e.1@, e.2));
                    entries.take(i as int).lemma_filter_push((e.0@, e.1@, e.2),
                        |e: (Seq<char>, Seq<char>, bool)| is_python_dir(e));
                    assert(entries.take(i as int).push((e.0@, e.1@, e.2)) =~= entries.take(i + 1));
                }
                if e.2 && starts_with(e.1.as_str(), "python") {
                    let cand = site_binary_exec(e.0.as_str());
                    r.push(cand);
                    proof {
                        assert(strings_view(r@) =~= before.push(site_binary(e.0@)));
                    }
                }
                i = i + 1;
            }
            let venv_dir = join_path(c.as_str(), ".venv");
            let bin_dir = join_path(venv_dir.as_str(), "bin");
            let cand = join_path(bin_dir.as_str(), "localharness");
            let ghost before = strings_view(r@);
            r.push(cand);
            proof {
                assert(entries.take(venv_lib_entries@.len() as int) =~= entries);
                assert(strings_view(r@) =~= before.push(cand@));
                assert(strings_view(r@) =~= first + venv);
            }
        },
        None => {
            assert(strings_view(r@) =~= first + venv);
        },
    }
    let ghost mid = strings_view(r@);
    let mut j: usize = 0;
    while j < path_dirs.len()
        invariant
            j <= path_dirs@.len(),
            dirs == strings_view(path_dirs@),
            strings_view(r@) == mid + dirs.take(j as int).map_values(|d: Seq<char>| path_joined(d, "localharness"@)),
        decreases path_dirs@.len() - j,
    {
        let cand = join_path(path_dirs[j].as_str(), "localharness");
        let ghost before = strings_view(r@);
        r.push(cand);
        proof {
            assert(dirs.take(j + 1) =~= dirs.take(j as int).push(dirs[j as int]));
            assert(strings_view(r@) =~= before.push(cand@));
            assert(strings_view(r@) =~= mid + dirs.take(j + 1).map_values(|d: Seq<char>| path_joined(d, "localharness"@)));
        }
        j = j + 1;
    }
    proof {
        assert(dirs.take(path_dirs@.len() as int) =~= dirs);
    }
    r
}

// =============================================================================
// Reaching the runtime's socket
// =============================================================================

/// The decimal text of an integer, with a minus sign when it is negative.
pub open spec fn signed_decimal(n: int) -> Seq<char> {
    if n < 0 {
        "-"@ + decimal((-n) as nat)
    } else {
        decimal(n as nat)
    }
}

/// The address of the runtime's WebSocket on `port`.
pub fn ws_url(port: i32) -> (s: String)
    ensures
        s@ == "ws://localhost:"@ + signed_decimal(port as int) + "/"@,
{
    let mut s = "ws://localhost:".to_owned();
    if port < 0 {
        s.append("-");
        let magnitude: u64 = (0i64 - port as i64) as u64;
        let digits = u64_to_decimal(magnitude);
        s.append(digits.as_str());
    } else {
        let digits = u64_to_decimal(port as u64);
        s.append(digits.as_str());
    }
    s.append("/");
    s
}

/// How many times connecting to the socket is tried.
pub const CONNECT_ATTEMPTS: u32 = 5;

/// The wait after the failed attempt `attempt` (from 0): 100 ms, doubling
/// each time.
pub open spec fn backoff_ms(attempt: nat) -> nat
    decreases attempt,
{
    if attempt == 0 {
        100
    } else {
        2 * backoff_ms((attempt - 1) as nat)
    }
}

/// What follows a failed attempt to connect.
pub enum RetryAction {
    /// Wait this many milliseconds, then try again.
    Retry { wait_ms: u64 },
    /// Give up: the last attempt failed.
    Fail,
}

/// Decides what follows the failed connection attempt `attempt` (from 0):
/// every attempt but the last is followed by a wait that doubles from
/// 100 ms; the last ends the connection with an error.
pub fn connect_retry(attempt: u32) -> (a: RetryAction)
    ensures
        attempt + 1 < CONNECT_ATTEMPTS ==> a == (RetryAction::Retry { wait_ms: backoff_ms(attempt as nat) as u64 }),
        attempt + 1 >= CONNECT_ATTEMPTS ==> a is Fail,
{
    if attempt >= CONNECT_ATTEMPTS - 1 {
        return RetryAction::Fail;
    }
    let mut wait: u64 = 100;
    let mut i: u32 = 0;
    while i < attempt
        invariant
            i <= attempt,
            attempt + 1 < CONNECT_ATTEMPTS,
            wait as nat == backoff_ms(i as nat),
            (i == 0 && wait == 100) || (i == 1 && wait == 200) || (i == 2 && wait == 400)
                || (i == 3 && wait == 800),
        decreases attempt - i,
    {
        assert(backoff_ms((i + 1) as nat) == 2 * backoff_ms(i as nat));
        wait = wait * 2;
        i = i + 1;
    }
    RetryAction::Retry { wait_ms: wait }
}

} // verus!
