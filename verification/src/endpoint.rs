//! Addresses and settings of the OpenAI-compatible inference API and of
//! the local Ollama server, and the progress of an Ollama model pull.
use vstd::prelude::*;
use crate::json::{json_string_field, string_field};
use crate::model::{ApiBackendConfig, BackendCapabilities, EmbedRequest};
use crate::text::{
    chars_of, contains, ends_with, has_suffix, line_views, lines_of, occurs_in, str_eq, string_of,
    string_of_range, text_lines, trim_chars, trimmed,
};

verus! {

/// Whether the API address points at a local Ollama server.
pub open spec fn is_local_ollama(url: Seq<char>) -> bool {
    occurs_in(url, "localhost:11434"@) || occurs_in(url, "127.0.0.1:11434"@)
}

/// Whether the API URL points to a local Ollama instance.
pub fn is_ollama_url(url: &str) -> (r: bool)
    ensures
        r == is_local_ollama(url@),
{
    let u = chars_of(url);
    contains(&u, &chars_of("localhost:11434")) || contains(&u, &chars_of("127.0.0.1:11434"))
}

/// `s` without its trailing slashes (`str::trim_end_matches('/')`).
pub open spec fn without_trailing_slashes(s: Seq<char>) -> Seq<char>
    decreases s.len(),
{
    if s.len() > 0 && s.last() == '/' {
        without_trailing_slashes(s.drop_last())
    } else {
        s
    }
}

/// The characters of `s` without its trailing slashes.
pub fn trim_trailing_slashes(s: &str) -> (r: Vec<char>)
    ensures
        r@ == without_trailing_slashes(s@),
{
    let mut v = chars_of(s);
    while v.len() > 0 && v[v.len() - 1] == '/'
        invariant
            without_trailing_slashes(v@) == without_trailing_slashes(s@),
        decreases v@.len(),
    {
        let ghost before = v@;
        v.pop();
        assert(v@ =~= before.drop_last());
    }
    v
}

/// `base` without trailing slashes, followed by `path`.
pub open spec fn api_url(base: Seq<char>, path: Seq<char>) -> Seq<char> {
    without_trailing_slashes(base) + path
}

/// The characters of `base` without trailing slashes, then `path`.
fn join_api_path(base: &str, path: &str) -> (r: String)
    ensures
        r@ == api_url(base@, path@),
{
    let b = trim_trailing_slashes(base);
    let mut r = string_of(&b);
    r.append(path);
    r
}

/// The chat-completions endpoint of an API.
pub fn chat_completions_url(base_url: &str) -> (r: String)
    ensures
        r@ == api_url(base_url@, "/chat/completions"@),
{
    join_api_path(base_url, "/chat/completions")
}

/// The embeddings endpoint of an API.
pub fn embeddings_url(base_url: &str) -> (r: String)
    ensures
        r@ == api_url(base_url@, "/embeddings"@),
{
    join_api_path(base_url, "/embeddings")
}

/// The model-list endpoint of an API, used as a health check.
pub fn models_url(base_url: &str) -> (r: String)
    ensures
        r@ == api_url(base_url@, "/models"@),
{
    join_api_path(base_url, "/models")
}

/// The Ollama model-pull endpoint for an OpenAI-compatible address: trailing
/// slashes and a final `/v1` are removed before `/api/pull` is appended.
pub open spec fn pull_url(base: Seq<char>) -> Seq<char> {
    let b = without_trailing_slashes(base);
    let root = if has_suffix(b, "/v1"@) {
        b.take(b.len() - "/v1"@.len())
    } else {
        b
    };
    root + "/api/pull"@
}

/// The address of Ollama's native model-pull endpoint.
pub fn ollama_pull_url(base_url: &str) -> (r: String)
    ensures
        r@ == pull_url(base_url@),
{
    let b = trim_trailing_slashes(base_url);
    let v1 = chars_of("/v1");
    let end = if ends_with(&b, &v1) {
        b.len() - v1.len()
    } else {
        b.len()
    };
    let mut r = string_of_range(&b, 0, end);
    r.append("/api/pull");
    proof {
        let bv = without_trailing_slashes(base_url@);
        if has_suffix(bv, "/v1"@) {
            assert(b@.subrange(0, end as int) =~= bv.take(bv.len() - "/v1"@.len()));
        } else {
            assert(b@.subrange(0, end as int) =~= bv);
        }
    }
    r
}

/// The `Authorization` header value for an API key.
pub fn bearer_header(api_key: &str) -> (r: String)
    ensures
        r@ == "Bearer "@ + api_key@,
{
    let mut r = "Bearer ".to_owned();
    r.append(api_key);
    r
}

/// The model a chat request uses: the one it names, else the configured default.
pub fn chat_model(requested: &Option<String>, config: &ApiBackendConfig) -> (r: String)
    ensures
        r@ == match requested {
            Some(m) => m@,
            None => config.default_model@,
        },
{
    match requested {
        Some(m) => m.clone(),
        None => config.default_model.clone(),
    }
}

/// The model an embedding request uses: the one it names, else `all-minilm`.
pub fn embedding_model(request: &EmbedRequest) -> (r: String)
    ensures
        r@ == match request.model {
            Some(m) => m@,
            None => "all-minilm"@,
        },
{
    match &request.model {
        Some(m) => m.clone(),
        None => "all-minilm".to_owned(),
    }
}

/// What an OpenAI-compatible backend supports: streaming and system prompts,
/// with its configured default model as the only listed model.
pub fn backend_capabilities(config: &ApiBackendConfig) -> (r: BackendCapabilities)
    ensures
        r.name@ == "OpenAI-compatible ("@ + config.base_url@ + ")"@,
        r.supports_streaming,
        r.supports_system_prompt,
        r.available_models@.len() == 1,
        r.available_models@[0]@ == config.default_model@,
{
    let mut name = "OpenAI-compatible (".to_owned();
    name.append(config.base_url.as_str());
    name.append(")");
    let mut models: Vec<String> = Vec::new();
    models.push(config.default_model.clone());
    BackendCapabilities {
        name,
        supports_streaming: true,
        supports_system_prompt: true,
        available_models: models,
    }
}

/// The backend configuration to connect with from saved settings, or `None`
/// when no API address is set (an empty key is fine for local servers).
pub fn backend_config_for(api_base_url: &str, api_key: &str, default_model: &str) -> (r: Option<
    ApiBackendConfig,
>)
    ensures
        api_base_url@.len() == 0 <==> r is None,
        r matches Some(c) ==> c.base_url@ == api_base_url@ && c.api_key@ == api_key@
            && c.default_model@ == default_model@,
{
    if api_base_url.is_empty() {
        None
    } else {
        Some(
            ApiBackendConfig {
                base_url: api_base_url.to_owned(),
                api_key: api_key.to_owned(),
                default_model: default_model.to_owned(),
            },
        )
    }
}

/// Whether the memory models should be pulled: memory is enabled and the
/// API is a local Ollama server.
pub fn should_pull_memory_models(memory_enabled: bool, api_base_url: &str) -> (r: bool)
    ensures
        r == (memory_enabled && is_local_ollama(api_base_url@)),
{
    memory_enabled && is_ollama_url(api_base_url)
}

/// The error reported by a pull-progress line, if it carries one.
pub open spec fn pull_line_error(line: Seq<char>) -> Option<Seq<char>> {
    json_string_field(line, "error"@)
}

/// The error reported by the first non-blank line of `ls` that reports one.
pub open spec fn first_pull_error(ls: Seq<Seq<char>>) -> Option<Seq<char>>
    decreases ls.len(),
{
    if ls.len() == 0 {
        None
    } else if trimmed(ls[0]).len() > 0 && pull_line_error(trimmed(ls[0])) is Some {
        pull_line_error(trimmed(ls[0]))
    } else {
        first_pull_error(ls.drop_first())
    }
}

/// The last non-blank line of `ls`, trimmed; `prev` when all are blank.
pub open spec fn last_nonblank(ls: Seq<Seq<char>>, prev: Seq<char>) -> Seq<char>
    decreases ls.len(),
{
    if ls.len() == 0 {
        prev
    } else if trimmed(ls.last()).len() > 0 {
        trimmed(ls.last())
    } else {
        last_nonblank(ls.drop_last(), prev)
    }
}

proof fn lemma_last_nonblank_at(ls: Seq<Seq<char>>, prev: Seq<char>, k: int)
    requires
        0 <= k < ls.len(),
        trimmed(ls[k]).len() > 0,
        forall|j: int| k < j < ls.len() ==> #[trigger] trimmed(ls[j]).len() == 0,
    ensures
        last_nonblank(ls, prev) == trimmed(ls[k]),
    decreases ls.len(),
{
    if k < ls.len() - 1 {
        let init = ls.drop_last();
        assert(trimmed(ls[ls.len() - 1]).len() == 0);
        assert forall|j: int| k < j < init.len() implies #[trigger] trimmed(init[j]).len() == 0 by {
            assert(init[j] == ls[j]);
            assert(trimmed(ls[j]).len() == 0);
        }
        assert(init[k] == ls[k]);
        lemma_last_nonblank_at(init, prev, k);
    }
}

proof fn lemma_last_nonblank_all_blank(ls: Seq<Seq<char>>, prev: Seq<char>)
    requires
        forall|j: int| 0 <= j < ls.len() ==> #[trigger] trimmed(ls[j]).len() == 0,
    ensures
        last_nonblank(ls, prev) == prev,
    decreases ls.len(),
{
    if ls.len() > 0 {
        let init = ls.drop_last();
        assert(trimmed(ls[ls.len() - 1]).len() == 0);
        assert forall|j: int| 0 <= j < init.len() implies #[trigger] trimmed(init[j]).len() == 0 by {
            assert(init[j] == ls[j]);
            assert(trimmed(ls[j]).len() == 0);
        }
        lemma_last_nonblank_all_blank(init, prev);
    }
}

/// After a chunk of progress text is observed without error, the last line
/// seen is the chunk's last non-blank line, trimmed, whatever line was seen
/// before; only a chunk whose lines are all blank keeps the previous line.
pub proof fn law_pull_progress_follows_last_nonblank_line(text: Seq<char>, prev: Seq<char>)
    ensures
        ({
            let ls = text_lines(text);
            &&& forall|k: int|
                0 <= k < ls.len() && #[trigger] trimmed(ls[k]).len() > 0 && (forall|j: int|
                    k < j < ls.len() ==> trimmed(ls[j]).len() == 0) ==> last_nonblank(ls, prev)
                    == trimmed(ls[k])
            &&& (forall|j: int| 0 <= j < ls.len() ==> trimmed(ls[j]).len() == 0) ==> last_nonblank(
                ls,
                prev,
            ) == prev
        }),
{
    let ls = text_lines(text);
    assert forall|k: int|
        0 <= k < ls.len() && #[trigger] trimmed(ls[k]).len() > 0 && (forall|j: int|
            k < j < ls.len() ==> trimmed(ls[j]).len() == 0) implies last_nonblank(ls, prev)
        == trimmed(ls[k]) by {
        assert forall|j: int| k < j < ls.len() implies #[trigger] trimmed(ls[j]).len() == 0 by {
        }
        lemma_last_nonblank_at(ls, prev, k);
    }
    if forall|j: int| 0 <= j < ls.len() ==> trimmed(ls[j]).len() == 0 {
        assert forall|j: int| 0 <= j < ls.len() implies #[trigger] trimmed(ls[j]).len() == 0 by {}
        lemma_last_nonblank_all_blank(ls, prev);
    }
}

/// The error reported for a pull whose progress line carried `error`.
pub fn pull_error_text(error: &str) -> (r: String)
    ensures
        r@ == "Ollama pull error: "@ + error@,
{
    let mut r = "Ollama pull error: ".to_owned();
    r.append(error);
    r
}

/// Whether the `status` field of a progress line says the pull succeeded.
pub fn is_success_status(status: &Option<String>) -> (r: bool)
    ensures
        r == (match status {
            Some(s) => s@ == "success"@,
            None => false,
        }),
{
    match status {
        Some(s) => str_eq(s.as_str(), "success"),
        None => false,
    }
}

/// Follows the JSON progress lines that Ollama streams while pulling a model.
pub struct PullProgress {
    last_line: String,
}

impl PullProgress {
    /// The last non-blank progress line seen, trimmed.
    pub closed spec fn last(&self) -> Seq<char> {
        self.last_line@
    }

    /// Progress before any line was seen.
    pub fn new() -> (r: PullProgress)
        ensures
            r.last() == Seq::<char>::empty(),
    {
        PullProgress { last_line: String::new() }
    }

    /// Reads one received piece of the progress stream. Each non-blank line,
    /// trimmed, becomes the last line seen, until a line reports an error:
    /// then `Err("Ollama pull error: <error>")` is returned.
    pub fn observe(&mut self, text: &str) -> (r: Result<(), String>)
        ensures
            ({
                let ls = text_lines(text@);
                match r {
                    Ok(_) => {
                        &&& first_pull_error(ls) is None
                        &&& final(self).last() == last_nonblank(ls, old(self).last())
                    },
                    Err(e) => first_pull_error(ls) matches Some(m) && e@ == "Ollama pull error: "@
                        + m,
                }
            }),
    {
        let cs = chars_of(text);
        let lines = lines_of(&cs);
        let ghost ls = text_lines(text@);
        let ghost start = self.last_line@;
        let mut i: usize = 0;
        assert(ls.take(0) =~= Seq::<Seq<char>>::empty());
        assert(ls.skip(0) =~= ls);
        while i < lines.len()
            invariant
                i <= lines@.len(),
                line_views(lines@) == ls,
                ls == text_lines(text@),
                self.last_line@ == last_nonblank(ls.take(i as int), start),
                first_pull_error(ls) == first_pull_error(ls.skip(i as int)),
            decreases lines@.len() - i,
        {
            let t = trim_chars(&lines[i]);
            assert(ls[i as int] == lines@[i as int]@);
            assert(ls.take(i + 1).drop_last() =~= ls.take(i as int));
            assert(ls.skip(i as int).drop_first() =~= ls.skip(i + 1));
            assert(ls.skip(i as int)[0] == ls[i as int]);
            if t.len() > 0 {
                let line = string_of(&t);
                match string_field(line.as_str(), "error") {
                    Some(e) => {
                        return Err(pull_error_text(e.as_str()));
                    },
                    None => {
                        self.last_line = line;
                    },
                }
            }
            i = i + 1;
        }
        assert(ls.take(lines@.len() as int) =~= ls);
        assert(ls.skip(lines@.len() as int) =~= Seq::<Seq<char>>::empty());
        Ok(())
    }

    /// Whether the last progress line reports `"status": "success"`.
    pub fn succeeded(&self) -> (r: bool)
        ensures
            r == (json_string_field(self.last(), "status"@) == Some("success"@)),
    {
        is_success_status(&string_field(self.last_line.as_str(), "status"))
    }
}

} // verus!
