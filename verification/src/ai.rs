use vstd::prelude::*;

use crate::image::append_chars;
use crate::models::{DialogType, Settings, SettingsView};
use crate::text::{chars_of, string_from_chars, trim, trim_str};

verus! {

/// Longest input, in characters, sent to the model unshortened.
pub const MAX_AI_INPUT_CHARS: usize = 10000;

/// Parameters of a chat-completion call. The sampling temperature is the
/// bit pattern of an `f32`.
#[derive(Clone, Debug)]
pub struct AiConfig {
    pub api_url: String,
    pub api_key: String,
    pub model: String,
    pub prompt: String,
    pub temperature_bits: u32,
}

/// What the HTTP layer sends: endpoint, bearer key, model, the one user
/// message, and the temperature bits.
#[derive(Clone, Debug)]
pub struct ChatRequest {
    pub url: String,
    pub api_key: String,
    pub model: String,
    pub content: String,
    pub temperature_bits: u32,
}

pub open spec fn completions_suffix() -> Seq<char> {
    "/chat/completions"@
}

/// `s` ends with `suffix`.
pub open spec fn ends_with(s: Seq<char>, suffix: Seq<char>) -> bool {
    suffix.len() <= s.len() && s.skip(s.len() - suffix.len()) == suffix
}

/// `s` without its trailing `/` characters.
pub open spec fn strip_trailing_slashes(s: Seq<char>) -> Seq<char>
    decreases s.len(),
{
    if s.len() > 0 && s.last() == '/' {
        strip_trailing_slashes(s.drop_last())
    } else {
        s
    }
}

/// The endpoint for an API address: kept when it already ends with
/// `/chat/completions`, else trailing slashes dropped and that path added.
pub open spec fn chat_url(api_url: Seq<char>) -> Seq<char> {
    if ends_with(api_url, completions_suffix()) {
        api_url
    } else {
        strip_trailing_slashes(api_url) + completions_suffix()
    }
}

/// The user message: the prompt, a blank line, and the text, cut to 10000
/// characters with a truncation note when longer.
pub open spec fn chat_content(prompt: Seq<char>, text: Seq<char>) -> Seq<char> {
    if text.len() > 10000 {
        prompt + "\n\n"@ + text.take(10000) + "...\n[内容过长已截断]"@
    } else {
        prompt + "\n\n"@ + text
    }
}

fn ends_with_chars(s: &Vec<char>, suffix: &Vec<char>) -> (r: bool)
    ensures
        r == ends_with(s@, suffix@),
{
    if suffix.len() > s.len() {
        return false;
    }
    let off = s.len() - suffix.len();
    let mut i: usize = 0;
    while i < suffix.len()
        invariant
            i <= suffix.len(),
            off == s.len() - suffix.len(),
            forall|k: int| 0 <= k < i ==> s@[off + k] == suffix@[k],
        decreases suffix.len() - i,
    {
        if s[off + i] != suffix[i] {
            assert(s@.skip(off as int)[i as int] != suffix@[i as int]);
            return false;
        }
        i = i + 1;
    }
    assert(s@.skip(off as int) =~= suffix@);
    true
}

/// The endpoint a chat request goes to.
pub fn chat_completions_url(api_url: &str) -> (r: String)
    ensures
        r@ == chat_url(api_url@),
{
    let v = chars_of(api_url);
    let suffix = chars_of("/chat/completions");
    if ends_with_chars(&v, &suffix) {
        return String::from_str(api_url);
    }
    let mut n = v.len();
    assert(v@.take(n as int) =~= v@);
    while n > 0 && v[n - 1] == '/'
        invariant
            n <= v.len(),
            strip_trailing_slashes(v@) == strip_trailing_slashes(v@.take(n as int)),
        decreases n,
    {
        proof {
            let t = v@.take(n as int);
            assert(t.drop_last() =~= v@.take(n - 1));
        }
        n = n - 1;
    }
    let mut out: Vec<char> = Vec::new();
    let mut k: usize = 0;
    while k < n
        invariant
            k <= n <= v.len(),
            out@ == v@.take(k as int),
        decreases n - k,
    {
        out.push(v[k]);
        assert(out@ =~= v@.take(k + 1));
        k = k + 1;
    }
    append_chars(&mut out, &suffix);
    string_from_chars(out.as_slice())
}

/// Builds the chat request for `text` under `config`.
pub fn build_chat_request(config: &AiConfig, text: &str) -> (r: ChatRequest)
    ensures
        r.url@ == chat_url(config.api_url@),
        r.api_key@ == config.api_key@,
        r.model@ == config.model@,
        r.content@ == chat_content(config.prompt@, text@),
        r.temperature_bits == config.temperature_bits,
{
    let url = chat_completions_url(config.api_url.as_str());
    let body = chars_of(text);
    let mut content = chars_of(config.prompt.as_str());
    append_chars(&mut content, &chars_of("\n\n"));
    if body.len() > MAX_AI_INPUT_CHARS {
        let mut head: Vec<char> = Vec::new();
        let mut k: usize = 0;
        while k < MAX_AI_INPUT_CHARS
            invariant
                k <= MAX_AI_INPUT_CHARS < body.len(),
                head@ == body@.take(k as int),
            decreases MAX_AI_INPUT_CHARS - k,
        {
            head.push(body[k]);
            assert(head@ =~= body@.take(k + 1));
            k = k + 1;
        }
        append_chars(&mut content, &head);
        append_chars(&mut content, &chars_of("...\n[内容过长已截断]"));
    } else {
        append_chars(&mut content, &body);
    }
    ChatRequest {
        url,
        api_key: config.api_key.clone(),
        model: config.model.clone(),
        content: string_from_chars(content.as_slice()),
        temperature_bits: config.temperature_bits,
    }
}

/// The AI parameters of the settings, or why they cannot be used: the
/// feature switched off, or no API address or key.
pub fn ai_config_from_settings(settings: &Settings) -> (r: Result<AiConfig, String>)
    ensures
        !settings.ai_enabled ==> (r matches Err(m) && m@ == "AI 功能未启用"@),
        settings.ai_enabled && (settings.ai_api_url@.len() == 0 || settings.ai_api_key@.len() == 0) ==> (r matches Err(m) && m@ == "AI 设置未配置"@),
        settings.ai_enabled && settings.ai_api_url@.len() > 0 && settings.ai_api_key@.len() > 0 ==> (r matches Ok(c) && c.api_url@ == settings.ai_api_url@ && c.api_key@ == settings.ai_api_key@
            && c.model@ == settings.ai_model@ && c.prompt@ == settings.ai_prompt@ && c.temperature_bits == settings.ai_temperature_bits),
{
    if !settings.ai_enabled {
        return Err(String::from_str("AI 功能未启用"));
    }
    if settings.ai_api_url.as_str().is_empty() || settings.ai_api_key.as_str().is_empty() {
        return Err(String::from_str("AI 设置未配置"));
    }
    Ok(AiConfig {
        api_url: settings.ai_api_url.clone(),
        api_key: settings.ai_api_key.clone(),
        model: settings.ai_model.clone(),
        prompt: settings.ai_prompt.clone(),
        temperature_bits: settings.ai_temperature_bits,
    })
}

/// The request for correcting `selected_text` with the AI settings; refused
/// for blank text and for unusable settings.
pub fn prepare_ai_text_request(settings: &Settings, selected_text: &str) -> (r: Result<ChatRequest, String>)
    ensures
        trim(selected_text@).len() == 0 ==> (r matches Err(m) && m@ == "selected text is empty"@),
        trim(selected_text@).len() > 0 && !settings.ai_enabled ==> (r matches Err(m) && m@ == "AI 功能未启用"@),
        trim(selected_text@).len() > 0 && settings.ai_enabled && (settings.ai_api_url@.len() == 0 || settings.ai_api_key@.len() == 0) ==> (r matches Err(m) && m@ == "AI 设置未配置"@),
        trim(selected_text@).len() > 0 && settings.ai_enabled && settings.ai_api_url@.len() > 0 && settings.ai_api_key@.len() > 0 ==> (r matches Ok(q) && q.url@ == chat_url(settings.ai_api_url@)
            && q.api_key@ == settings.ai_api_key@ && q.model@ == settings.ai_model@
            && q.content@ == chat_content(settings.ai_prompt@, selected_text@)
            && q.temperature_bits == settings.ai_temperature_bits),
{
    let trimmed = trim_str(selected_text);
    if trimmed.as_str().is_empty() {
        return Err(String::from_str("selected text is empty"));
    }
    match ai_config_from_settings(settings) {
        Ok(config) => Ok(build_chat_request(&config, selected_text)),
        Err(e) => Err(e),
    }
}

/// The corrected text from the model's first choice, trimmed; an error when
/// the answer has no choice.
pub fn finish_ai_response(first_choice: Option<String>) -> (r: Result<String, String>)
    ensures
        match first_choice {
            Some(c) => r matches Ok(t) && t@ == trim(c@),
            None => r matches Err(m) && m@ == "AI 返回了空结果"@,
        },
{
    match first_choice {
        Some(c) => Ok(trim_str(c.as_str())),
        None => Err(String::from_str("AI 返回了空结果")),
    }
}

/// What happened last while the AI shortcut is handled.
pub enum AiShortcutEvent {
    /// The text selected in the target application was read.
    TextSelected(String),
    /// The chat service answered: the first choice's text, if any, or why
    /// the request failed.
    Answered(Result<Option<String>, String>),
    /// The corrected text was written to the clipboard, or not.
    Written(Result<(), String>),
    /// The paste into the target application was done, or not.
    Pasted(Result<(), String>),
}

/// What the host does next while the AI shortcut is handled.
pub enum AiShortcutAction {
    /// Shows a popup (kind, title, message) and stops.
    ShowPopup(DialogType, String, String),
    /// Sends the chat request.
    SendRequest(ChatRequest),
    /// Writes the corrected text to the clipboard (the watcher told to
    /// ignore the change).
    WriteClipboard(String),
    /// Pastes into the target application.
    Paste,
    /// Stops.
    Finish,
}

/// The next step of the AI shortcut: blank selections get a notice; a
/// selection is sent for correction with the AI settings; the answer is
/// written to the clipboard and pasted; each failure ends in an error
/// popup naming the step that failed.
pub fn ai_shortcut_next(settings: &Settings, event: AiShortcutEvent) -> (a: AiShortcutAction)
    ensures
        match event {
            AiShortcutEvent::TextSelected(t) => if trim(t@).len() == 0 {
                a matches AiShortcutAction::ShowPopup(k, title, m) && k == DialogType::Info && title@ == "提示"@
                    && m@ == "未检测到文本，或选中的不是有效内容"@
            } else if !settings.ai_enabled {
                a matches AiShortcutAction::ShowPopup(k, title, m) && k == DialogType::Error && title@ == "AI 处理失败"@
                    && m@ == "AI 功能未启用"@
            } else if settings.ai_api_url@.len() == 0 || settings.ai_api_key@.len() == 0 {
                a matches AiShortcutAction::ShowPopup(k, title, m) && k == DialogType::Error && title@ == "AI 处理失败"@
                    && m@ == "AI 设置未配置"@
            } else {
                a matches AiShortcutAction::SendRequest(q) && q.url@ == chat_url(settings.ai_api_url@)
                    && q.api_key@ == settings.ai_api_key@ && q.model@ == settings.ai_model@
                    && q.content@ == chat_content(settings.ai_prompt@, t@)
                    && q.temperature_bits == settings.ai_temperature_bits
            },
            AiShortcutEvent::Answered(res) => match res {
                Ok(Some(c)) => a matches AiShortcutAction::WriteClipboard(x) && x@ == trim(c@),
                Ok(None) => a matches AiShortcutAction::ShowPopup(k, title, m) && k == DialogType::Error
                    && title@ == "AI 处理失败"@ && m@ == "AI 返回了空结果"@,
                Err(e) => a matches AiShortcutAction::ShowPopup(k, title, m) && k == DialogType::Error
                    && title@ == "AI 处理失败"@ && m@ == e@,
            },
            AiShortcutEvent::Written(res) => match res {
                Ok(_) => a is Paste,
                Err(e) => a matches AiShortcutAction::ShowPopup(k, title, m) && k == DialogType::Error
                    && title@ == "写入剪贴板失败"@ && m@ == e@,
            },
            AiShortcutEvent::Pasted(res) => match res {
                Ok(_) => a is Finish,
                Err(e) => a matches AiShortcutAction::ShowPopup(k, title, m) && k == DialogType::Error
                    && title@ == "粘贴失败"@ && m@ == e@,
            },
        },
{
    match event {
        AiShortcutEvent::TextSelected(text) => {
            let trimmed = trim_str(text.as_str());
            if trimmed.as_str().is_empty() {
                return AiShortcutAction::ShowPopup(
                    DialogType::Info,
                    String::from_str("提示"),
                    String::from_str("未检测到文本，或选中的不是有效内容"),
                );
            }
            match prepare_ai_text_request(settings, text.as_str()) {
                Ok(q) => AiShortcutAction::SendRequest(q),
                Err(e) => AiShortcutAction::ShowPopup(DialogType::Error, String::from_str("AI 处理失败"), e),
            }
        },
        AiShortcutEvent::Answered(res) => {
            let answer = match res {
                Ok(first) => finish_ai_response(first),
                Err(e) => Err(e),
            };
            match answer {
                Ok(x) => AiShortcutAction::WriteClipboard(x),
                Err(e) => AiShortcutAction::ShowPopup(DialogType::Error, String::from_str("AI 处理失败"), e),
            }
        },
        AiShortcutEvent::Written(res) => match res {
            Ok(_) => AiShortcutAction::Paste,
            Err(e) => AiShortcutAction::ShowPopup(DialogType::Error, String::from_str("写入剪贴板失败"), e),
        },
        AiShortcutEvent::Pasted(res) => match res {
            Ok(_) => AiShortcutAction::Finish,
            Err(e) => AiShortcutAction::ShowPopup(DialogType::Error, String::from_str("粘贴失败"), e),
        },
    }
}

} // verus!
