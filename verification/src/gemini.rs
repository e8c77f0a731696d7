//! The Gemini exchange as data: response parts and their text, the audio
//! formats accepted, and how audio is sent (inline or uploaded first).
use vstd::prelude::*;
use crate::text::{
    ascii_lower, chars_are, chars_of, is_ascii_seq, lowercase_of, push_all, push_str,
    string_from_chars, to_lowercase, result_view, contains_seq,
};

verus! {

/// How a generated chart may be written: this phase only previews.
#[derive(Debug, Clone, Copy, PartialEq, Eq, Structural)]
pub enum GeminiWriteMode {
    PreviewOnly,
}

/// How the audio travels with a request.
#[derive(Debug, Clone)]
pub enum GeminiAudioSource {
    Inline { mime_type: String, base64_data: String },
    FileData { mime_type: String, file_uri: String },
}

#[derive(Debug, Clone)]
pub struct InlineData {
    pub mime_type: String,
    pub data: String,
}

#[derive(Debug, Clone)]
pub struct FileData {
    pub mime_type: String,
    pub file_uri: String,
}

/// One part of a request or response content.
#[derive(Debug, Clone)]
pub enum GeminiPart {
    Text { text: String },
    InlineData { inline_data: InlineData },
    FileData { file_data: FileData },
}

#[derive(Debug, Clone)]
pub struct GeminiContent {
    pub parts: Vec<GeminiPart>,
}

#[derive(Debug, Clone)]
pub struct GeminiCandidate {
    pub content: GeminiContent,
}

#[derive(Debug, Clone)]
pub struct GeminiGenerateContentResponse {
    pub candidates: Option<Vec<GeminiCandidate>>,
}

#[derive(Debug, Clone)]
pub struct GeminiErrorDetails {
    pub code: u32,
    pub message: String,
    pub status: String,
}

#[derive(Debug, Clone)]
pub struct GeminiErrorResponse {
    pub error: GeminiErrorDetails,
}

/// The index of the first text part, if any.
pub open spec fn first_text_part(parts: Seq<GeminiPart>) -> Option<int>
    decreases parts.len(),
{
    if parts.len() == 0 {
        None
    } else {
        match first_text_part(parts.drop_last()) {
            Some(i) => Some(i),
            None => if parts.last() is Text {
                Some(parts.len() - 1)
            } else {
                None
            },
        }
    }
}

pub open spec fn msg_no_candidates() -> Seq<char> {
    "No candidates found in Gemini response (empty candidates list)."@
}

pub open spec fn msg_empty_candidates() -> Seq<char> {
    "Candidates list is empty in Gemini response."@
}

pub open spec fn msg_no_text_part() -> Seq<char> {
    "No text part found in the first candidate."@
}

/// The text of a response: that of the first text part of the first
/// candidate, or why there is none.
pub open spec fn response_text(r: GeminiGenerateContentResponse) -> Result<Seq<char>, Seq<char>> {
    match r.candidates {
        None => Err(msg_no_candidates()),
        Some(cs) => if cs@.len() == 0 {
            Err(msg_empty_candidates())
        } else {
            let parts = cs@[0].content.parts@;
            match first_text_part(parts) {
                Some(i) => Ok(parts[i]->text@),
                None => Err(msg_no_text_part()),
            }
        },
    }
}

proof fn lemma_first_text_prefix(parts: Seq<GeminiPart>, i: int)
    requires
        0 <= i <= parts.len(),
        forall|j: int| 0 <= j < i ==> !(#[trigger] parts[j] is Text),
    ensures
        first_text_part(parts.take(i)) is None,
    decreases i,
{
    if i > 0 {
        assert(parts.take(i).drop_last() =~= parts.take(i - 1));
        lemma_first_text_prefix(parts, i - 1);
    }
}

proof fn lemma_first_text_found(parts: Seq<GeminiPart>, i: int, k: int)
    requires
        0 <= i < k <= parts.len(),
        parts[i] is Text,
        forall|j: int| 0 <= j < i ==> !(#[trigger] parts[j] is Text),
    ensures
        first_text_part(parts.take(k)) == Some(i),
    decreases k,
{
    assert(parts.take(k).drop_last() =~= parts.take(k - 1));
    if k == i + 1 {
        lemma_first_text_prefix(parts, i);
    } else {
        lemma_first_text_found(parts, i, k - 1);
    }
}

impl GeminiGenerateContentResponse {
    /// The text of the first text part of the first candidate.
    pub fn get_text_content(&self) -> (r: Result<String, String>)
        ensures
            match r {
                Ok(t) => response_text(*self) == Ok::<Seq<char>, Seq<char>>(t@),
                Err(e) => response_text(*self) == Err::<Seq<char>, Seq<char>>(e@),
            },
    {
        let candidates = match &self.candidates {
            Some(c) => c,
            None => {
                return Err(
                    String::from_str("No candidates found in Gemini response (empty candidates list)."),
                );
            },
        };
        if candidates.len() == 0 {
            return Err(String::from_str("Candidates list is empty in Gemini response."));
        }
        let parts = &candidates[0].content.parts;
        let mut i: usize = 0;
        while i < parts.len()
            invariant
                i <= parts@.len(),
                self.candidates is Some,
                self.candidates->0@.len() > 0,
                parts@ == self.candidates->0@[0].content.parts@,
                forall|j: int| 0 <= j < i ==> !(#[trigger] parts@[j] is Text),
            decreases parts@.len() - i,
        {
            match &parts[i] {
                GeminiPart::Text { text } => {
                    proof {
                        lemma_first_text_found(parts@, i as int, parts@.len() as int);
                        assert(parts@.take(parts@.len() as int) =~= parts@);
                        assert(first_text_part(parts@) == Some(i as int));
                        assert(parts@[i as int]->text == *text);
                        assert(self.candidates->0@[0].content.parts@ == parts@);
                    }
                    let cs = chars_of(text.as_str());
                    return Ok(string_from_chars(cs.as_slice()));
                },
                _ => {},
            }
            i = i + 1;
        }
        proof {
            lemma_first_text_prefix(parts@, parts@.len() as int);
            assert(parts@.take(parts@.len() as int) =~= parts@);
        }
        Err(String::from_str("No text part found in the first candidate."))
    }
}

/// The MIME type for a lower-cased audio extension.
pub open spec fn mime_for_extension(lower: Seq<char>) -> Option<Seq<char>> {
    if lower == "mp3"@ {
        Some("audio/mpeg"@)
    } else if lower == "ogg"@ {
        Some("audio/ogg"@)
    } else if lower == "wav"@ {
        Some("audio/wav"@)
    } else if lower == "flac"@ {
        Some("audio/flac"@)
    } else {
        None
    }
}

pub open spec fn msg_no_extension() -> Seq<char> {
    "No file extension found on audio file."@
}

/// The MIME type of an audio file with the given extension, or why there is
/// none: no extension, or one that is not mp3, ogg, wav or flac (any case).
pub open spec fn mime_type_result(ext: Option<Seq<char>>) -> Result<Seq<char>, Seq<char>> {
    match ext {
        None => Err(msg_no_extension()),
        Some(e) => match mime_for_extension(lowercase_of(e)) {
            Some(m) => Ok(m),
            None => Err("Unsupported audio extension: ."@ + lowercase_of(e)),
        },
    }
}

pub open spec fn opt_str_view(o: Option<&str>) -> Option<Seq<char>> {
    match o {
        Some(s) => Some(s@),
        None => None,
    }
}

/// The MIME type for an audio file extension (as `Path::extension` gives it).
pub fn mime_type_for_extension(ext: Option<&str>) -> (r: Result<String, String>)
    ensures
        match r {
            Ok(m) => mime_type_result(opt_str_view(ext)) == Ok::<Seq<char>, Seq<char>>(m@),
            Err(m) => mime_type_result(opt_str_view(ext)) == Err::<Seq<char>, Seq<char>>(m@),
        },
        match ext {
            Some(e) => is_ascii_seq(e@) ==> lowercase_of(e@) == ascii_lower(e@),
            None => true,
        },
{
    match ext {
        None => Err(String::from_str("No file extension found on audio file.")),
        Some(e) => {
            let lower = to_lowercase(e);
            let cs = chars_of(lower.as_str());
            if chars_are(cs.as_slice(), "mp3") {
                Ok(String::from_str("audio/mpeg"))
            } else if chars_are(cs.as_slice(), "ogg") {
                Ok(String::from_str("audio/ogg"))
            } else if chars_are(cs.as_slice(), "wav") {
                Ok(String::from_str("audio/wav"))
            } else if chars_are(cs.as_slice(), "flac") {
                Ok(String::from_str("audio/flac"))
            } else {
                let mut v: Vec<char> = Vec::new();
                push_str(&mut v, "Unsupported audio extension: .");
                push_all(&mut v, cs.as_slice());
                Err(string_from_chars(v.as_slice()))
            }
        },
    }
}

/// `ext` is an extension that `path` may have: a dot followed by `ext`
/// occurs in the path, and `ext` holds no `/`.
pub open spec fn has_extension(path: Seq<char>, ext: Seq<char>) -> bool {
    contains_seq(path, seq!['.'] + ext) && !ext.contains('/')
}

/// A path of one component on every platform: not empty, not `.` or `..`,
/// and without `/`, `\` or `:`.
pub open spec fn simple_path(p: Seq<char>) -> bool {
    p.len() > 0 && !p.contains('/') && !p.contains('\\') && !p.contains(':') && p != "."@ && p
        != ".."@
}

/// The index of the last `.` in `s`, or -1 when there is none.
pub open spec fn last_dot(s: Seq<char>) -> int
    decreases s.len(),
{
    if s.len() == 0 {
        -1
    } else if s.last() == '.' {
        s.len() - 1
    } else {
        last_dot(s.drop_last())
    }
}

/// The extension of a file name: the text after its last dot, when that
/// dot is not its first character; none otherwise.
pub open spec fn name_extension(name: Seq<char>) -> Option<Seq<char>> {
    let k = last_dot(name);
    if k <= 0 {
        None
    } else {
        Some(name.subrange(k + 1, name.len() as int))
    }
}

/// Calls `Path::extension` on `path` and keeps it when it is valid UTF-8.
/// The extension is the part after the last dot of the path's last normal
/// component, which is a slice of the path (`"a/b.txt/."` gives `txt`), so
/// a dot followed by it occurs in the path and it holds no `/`. For a path
/// of one component (`simple_path`) std's documentation fixes it on every
/// platform: none when the name has no dot after its first character, else
/// the text after the last dot. For other paths, which component is last
/// and which characters separate components depend on the platform and are
/// not stated.
#[verifier::external_body]
pub(crate) fn path_extension(path: &str) -> (r: Option<String>)
    ensures
        match r {
            Some(e) => has_extension(path@, e@),
            None => true,
        },
        simple_path(path@) ==> match r {
            Some(e) => name_extension(path@) == Some(e@),
            None => name_extension(path@) is None,
        },
{
    std::path::Path::new(path).extension().and_then(|e| e.to_str()).map(|e| e.to_string())
}

/// The MIME type of an audio file by its path's extension.
pub fn detect_mime_type(file_path: &str) -> (r: Result<String, String>)
    ensures
        result_view(r) == mime_type_result(None) || exists|e: Seq<char>|
            has_extension(file_path@, e) && result_view(r) == mime_type_result(Some(e)),
        simple_path(file_path@) ==> result_view(r) == mime_type_result(name_extension(file_path@)),
{
    let ext = path_extension(file_path);
    match ext {
        Some(e) => {
            let r = mime_type_for_extension(Some(e.as_str()));
            assert(has_extension(file_path@, e@) && result_view(r) == mime_type_result(Some(e@)));
            r
        },
        None => mime_type_for_extension(None),
    }
}

/// Largest estimated request that still sends the audio inline.
pub const INLINE_REQUEST_LIMIT: u64 = 20971520;

/// Allowance for the prompt and schema in the request size estimate.
pub const REQUEST_OVERHEAD_ESTIMATE: u64 = 50000;

/// Whether audio goes inline: the estimated request (encoded audio, prompt
/// and overhead) is at most 20 MiB.
pub open spec fn sends_inline(base64_estimate: nat, prompt_len: nat) -> bool {
    base64_estimate + prompt_len + REQUEST_OVERHEAD_ESTIMATE <= INLINE_REQUEST_LIMIT
}

/// Decides whether to send the audio inline, from the estimated size of its
/// base64 text and the prompt's length in bytes. `None` when the estimate
/// does not fit in `u64`.
pub fn choose_inline_audio(base64_estimate: u64, prompt_len: u64) -> (r: Option<bool>)
    ensures
        base64_estimate + prompt_len + REQUEST_OVERHEAD_ESTIMATE <= u64::MAX ==> r == Some(
            sends_inline(base64_estimate as nat, prompt_len as nat),
        ),
        base64_estimate + prompt_len + REQUEST_OVERHEAD_ESTIMATE > u64::MAX ==> r is None,
{
    match base64_estimate.checked_add(prompt_len) {
        None => None,
        Some(a) => match a.checked_add(REQUEST_OVERHEAD_ESTIMATE) {
            None => None,
            Some(total) => Some(total <= INLINE_REQUEST_LIMIT),
        },
    }
}

// ---------------------------------------------------------------------------
// Audio sent inline
// ---------------------------------------------------------------------------

/// What base64 (standard alphabet, padded) gives for these bytes.
pub uninterp spec fn base64_standard_of(bytes: Seq<u8>) -> Seq<char>;

/// Calls `base64::engine::general_purpose::STANDARD.encode`. The contract
/// names the text and states its length: four characters for every three
/// bytes or part of three, with padding. The crate panics when that length
/// overflows `usize`, which the `requires` leaves out.
#[verifier::external_body]
fn base64_encode(bytes: &[u8]) -> (r: String)
    requires
        4 * ((bytes@.len() + 2) / 3) <= usize::MAX,
    ensures
        r@ == base64_standard_of(bytes@),
        r@.len() == 4 * ((bytes@.len() + 2) / 3),
{
    base64::Engine::encode(&base64::engine::general_purpose::STANDARD, bytes)
}

/// The inline audio part of a request: the audio's MIME type and its bytes
/// in base64.
pub fn inline_audio_source(mime_type: String, audio: &[u8]) -> (s: GeminiAudioSource)
    requires
        4 * ((audio@.len() + 2) / 3) <= usize::MAX,
    ensures
        s matches GeminiAudioSource::Inline { mime_type: m, base64_data: d } && m == mime_type
            && d@ == base64_standard_of(audio@) && d@.len() == 4 * ((audio@.len() + 2) / 3),
{
    let base64_data = base64_encode(audio);
    GeminiAudioSource::Inline { mime_type, base64_data }
}

} // verus!
