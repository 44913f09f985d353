use vstd::prelude::*;

use crate::error::AppError;
use crate::text::views;

verus! {

/// The kind of task a model performs.
#[derive(Debug, Clone, Copy, PartialEq, Eq, Structural)]
pub enum ModelType {
    SpeechToText,
    TextToSpeech,
    LanguageModel,
}

/// A model that the application can offer.
#[derive(Debug, Clone)]
pub struct ModelOption {
    pub id: &'static str,
    pub model_type: ModelType,
    pub title: &'static str,
    pub description: &'static str,
    pub provider: &'static str,
    pub size_mb: u32,
    pub supports_mlx: bool,
    pub requires_gpu: bool,
}

/// The built-in catalogue of models, in display order.
pub fn default_models() -> (r: Vec<ModelOption>)
    ensures
        r@.map_values(|m: ModelOption| m.id@) == seq![
            "faster-whisper-base"@,
            "faster-whisper-small"@,
            "coqui-xtts-dq"@,
            "espeak-ng-tamil"@,
            "mistral-7b-q4km"@,
            "phi-2-int4"@,
            "ibm-granite-7b-slim"@,
        ],
        r@.map_values(|m: ModelOption| m.model_type) == seq![
            ModelType::SpeechToText,
            ModelType::SpeechToText,
            ModelType::TextToSpeech,
            ModelType::TextToSpeech,
            ModelType::LanguageModel,
            ModelType::LanguageModel,
            ModelType::LanguageModel,
        ],
        r@.map_values(|m: ModelOption| m.size_mb) == seq![140u32, 240, 400, 20, 4100, 1800, 3200],
        r@.map_values(|m: ModelOption| m.supports_mlx) == seq![true, true, false, false, false, false, true],
        r@.map_values(|m: ModelOption| m.title@) == seq![
            "Faster-Whisper Base"@,
            "Faster-Whisper Small"@,
            "Coqui XTTS Distilled Quantized"@,
            "eSpeak NG Tamil"@,
            "Mistral 7B Instruct Q4_K_M"@,
            "Phi-2 Int4"@,
            "IBM Granite 7B Slim"@,
        ],
        r@.map_values(|m: ModelOption| m.description@) == seq![
            "Multilingual 140 MB model, int8 quantized, great on M-series MLX"@,
            "Higher Tamil accuracy, 240 MB, benefits from GPU/ANE acceleration"@,
            "Cross-lingual TTS with voice cloning, ~400 MB footprint"@,
            "Lightweight fallback synthesizer for previews, <20 MB"@,
            "Balanced creative writing assistant, ~4 GB RAM footprint"@,
            "Ultra-light outline generator for laptops, ~1.8 GB RAM"@,
            "Small Granite model optimized for on-device drafting with IBM SLM runtime"@,
        ],
        r@.map_values(|m: ModelOption| m.provider@) == seq![
            "OpenAI/Whisper"@,
            "OpenAI/Whisper"@,
            "Coqui"@,
            "eSpeak-NG"@,
            "Mistral AI"@,
            "Microsoft"@,
            "IBM"@,
        ],
        forall|i: int| 0 <= i < r@.len() ==> !(#[trigger] r@[i]).requires_gpu,
{
    let mut v: Vec<ModelOption> = Vec::new();
    v.push(ModelOption {
        id: "faster-whisper-base",
        model_type: ModelType::SpeechToText,
        title: "Faster-Whisper Base",
        description: "Multilingual 140 MB model, int8 quantized, great on M-series MLX",
        provider: "OpenAI/Whisper",
        size_mb: 140,
        supports_mlx: true,
        requires_gpu: false,
    });
    v.push(ModelOption {
        id: "faster-whisper-small",
        model_type: ModelType::SpeechToText,
        title: "Faster-Whisper Small",
        description: "Higher Tamil accuracy, 240 MB, benefits from GPU/ANE acceleration",
        provider: "OpenAI/Whisper",
        size_mb: 240,
        supports_mlx: true,
        requires_gpu: false,
    });
    v.push(ModelOption {
        id: "coqui-xtts-dq",
        model_type: ModelType::TextToSpeech,
        title: "Coqui XTTS Distilled Quantized",
        description: "Cross-lingual TTS with voice cloning, ~400 MB footprint",
        provider: "Coqui",
        size_mb: 400,
        supports_mlx: false,
        requires_gpu: false,
    });
    v.push(ModelOption {
        id: "espeak-ng-tamil",
        model_type: ModelType::TextToSpeech,
        title: "eSpeak NG Tamil",
        description: "Lightweight fallback synthesizer for previews, <20 MB",
        provider: "eSpeak-NG",
        size_mb: 20,
        supports_mlx: false,
        requires_gpu: false,
    });
    v.push(ModelOption {
        id: "mistral-7b-q4km",
        model_type: ModelType::LanguageModel,
        title: "Mistral 7B Instruct Q4_K_M",
        description: "Balanced creative writing assistant, ~4 GB RAM footprint",
        provider: "Mistral AI",
        size_mb: 4100,
        supports_mlx: false,
        requires_gpu: false,
    });
    v.push(ModelOption {
        id: "phi-2-int4",
        model_type: ModelType::LanguageModel,
        title: "Phi-2 Int4",
        description: "Ultra-light outline generator for laptops, ~1.8 GB RAM",
        provider: "Microsoft",
        size_mb: 1800,
        supports_mlx: false,
        requires_gpu: false,
    });
    v.push(ModelOption {
        id: "ibm-granite-7b-slim",
        model_type: ModelType::LanguageModel,
        title: "IBM Granite 7B Slim",
        description: "Small Granite model optimized for on-device drafting with IBM SLM runtime",
        provider: "IBM",
        size_mb: 3200,
        supports_mlx: true,
        requires_gpu: false,
    });
    assert(v@.map_values(|m: ModelOption| m.id@) =~= seq![
            "faster-whisper-base"@,
            "faster-whisper-small"@,
            "coqui-xtts-dq"@,
            "espeak-ng-tamil"@,
            "mistral-7b-q4km"@,
            "phi-2-int4"@,
            "ibm-granite-7b-slim"@,
        ]);
    assert(v@.map_values(|m: ModelOption| m.model_type) =~= seq![
            ModelType::SpeechToText,
            ModelType::SpeechToText,
            ModelType::TextToSpeech,
            ModelType::TextToSpeech,
            ModelType::LanguageModel,
            ModelType::LanguageModel,
            ModelType::LanguageModel,
        ]);
    assert(v@.map_values(|m: ModelOption| m.size_mb) =~= seq![140u32, 240, 400, 20, 4100, 1800, 3200]);
    assert(v@.map_values(|m: ModelOption| m.supports_mlx) =~= seq![true, true, false, false, false, false, true]);
    assert(v@.map_values(|m: ModelOption| m.title@) =~= seq![
        "Faster-Whisper Base"@,
        "Faster-Whisper Small"@,
        "Coqui XTTS Distilled Quantized"@,
        "eSpeak NG Tamil"@,
        "Mistral 7B Instruct Q4_K_M"@,
        "Phi-2 Int4"@,
        "IBM Granite 7B Slim"@,
    ]);
    assert(v@.map_values(|m: ModelOption| m.description@) =~= seq![
        "Multilingual 140 MB model, int8 quantized, great on M-series MLX"@,
        "Higher Tamil accuracy, 240 MB, benefits from GPU/ANE acceleration"@,
        "Cross-lingual TTS with voice cloning, ~400 MB footprint"@,
        "Lightweight fallback synthesizer for previews, <20 MB"@,
        "Balanced creative writing assistant, ~4 GB RAM footprint"@,
        "Ultra-light outline generator for laptops, ~1.8 GB RAM"@,
        "Small Granite model optimized for on-device drafting with IBM SLM runtime"@,
    ]);
    assert(v@.map_values(|m: ModelOption| m.provider@) =~= seq![
        "OpenAI/Whisper"@,
        "OpenAI/Whisper"@,
        "Coqui"@,
        "eSpeak-NG"@,
        "Mistral AI"@,
        "Microsoft"@,
        "IBM"@,
    ]);
    v
}

/// A project as the application shows it.
#[derive(Debug, Clone)]
pub struct ProjectRecord {
    pub id: String,
    pub name: String,
    pub slug: String,
    pub project_type: String,
    pub languages: Vec<String>,
    pub description: Option<String>,
    pub template_id: Option<String>,
    pub base_path: String,
    pub created_at: String,
    pub updated_at: String,
}

/// A project as stored, with its languages as a JSON list.
#[derive(Debug)]
pub struct ProjectRow {
    pub id: String,
    pub name: String,
    pub slug: String,
    pub project_type: String,
    pub languages: String,
    pub description: Option<String>,
    pub template_id: Option<String>,
    pub base_path: String,
    pub created_at: String,
    pub updated_at: String,
}

/// Stored settings, with the API keys as JSON text.
#[derive(Debug)]
pub struct SettingsRow {
    pub preferred_theme: String,
    pub transliteration_mode: String,
    pub stt_model: String,
    pub tts_model: String,
    pub llm_model: String,
    pub api_keys: Option<String>,
}

/// The signed-in user as the application shows it.
#[derive(Debug, Clone)]
pub struct UserProfile {
    pub id: String,
    pub email: String,
    pub display_name: Option<String>,
    pub created_at: String,
}

/// A user as stored.
#[derive(Debug)]
pub struct UserRow {
    pub id: String,
    pub email: String,
    pub display_name: Option<String>,
    pub password_hash: String,
    pub created_at: String,
    pub updated_at: String,
}

impl UserRow {
    /// The profile part of the row; the password hash is left behind.
    pub fn into_profile(self) -> (r: UserProfile)
        ensures
            r.id == self.id,
            r.email == self.email,
            r.display_name == self.display_name,
            r.created_at == self.created_at,
    {
        UserProfile {
            id: self.id,
            email: self.email,
            display_name: self.display_name,
            created_at: self.created_at,
        }
    }
}

/// The list of strings that a JSON text denotes, if it is one.
pub uninterp spec fn json_string_list(s: Seq<char>) -> Option<Seq<Seq<char>>>;

/// Relies on `serde_json::from_str` into `Vec<String>`: it succeeds exactly
/// when the text is a JSON array of strings, which it returns.
#[verifier::external_body]
fn parse_string_list(s: &str) -> (r: Result<Vec<String>, serde_json::Error>)
    ensures
        match r {
            Ok(v) => json_string_list(s@) == Some(views(v@)),
            Err(_) => json_string_list(s@) is None,
        },
{
    serde_json::from_str(s)
}

/// A lower-case hexadecimal digit.
pub open spec fn is_lower_hex(c: char) -> bool {
    ('0' <= c && c <= '9') || ('a' <= c && c <= 'f')
}

/// The hyphenated lower-case text of a random (version 4, RFC 4122 variant)
/// UUID: 36 characters, hyphens at 8, 13, 18 and 23, hex digits elsewhere,
/// `4` at 14 and one of `8`, `9`, `a`, `b` at 19.
pub open spec fn is_uuid_v4_text(s: Seq<char>) -> bool {
    &&& s.len() == 36
    &&& forall|i: int|
        0 <= i < 36 ==> if i == 8 || i == 13 || i == 18 || i == 23 {
            #[trigger] s[i] == '-'
        } else {
            is_lower_hex(s[i])
        }
    &&& s[14] == '4'
    &&& (s[19] == '8' || s[19] == '9' || s[19] == 'a' || s[19] == 'b')
}

/// Relies on `uuid::Uuid::new_v4`, which sets the version and variant bits
/// of a random number, and its `Display`, the lower-case hyphenated form.
#[verifier::external_body]
fn random_uuid() -> (r: String)
    ensures
        is_uuid_v4_text(r@),
{
    uuid::Uuid::new_v4().to_string()
}

impl ProjectRecord {
    /// A fresh random identifier.
    pub fn new_id() -> (r: String)
        ensures
            is_uuid_v4_text(r@),
    {
        random_uuid()
    }

    /// The record of a stored row; its languages must be a JSON list of
    /// strings.
    pub fn from_row(row: ProjectRow) -> (r: Result<ProjectRecord, AppError>)
        ensures
            match r {
                Ok(p) => json_string_list(row.languages@) == Some(views(p.languages@)) && p.id
                    == row.id && p.name == row.name && p.slug == row.slug && p.project_type
                    == row.project_type && p.description == row.description && p.template_id
                    == row.template_id && p.base_path == row.base_path && p.created_at
                    == row.created_at && p.updated_at == row.updated_at,
                Err(e) => json_string_list(row.languages@) is None && e is Message,
            },
    {
        let languages = match parse_string_list(row.languages.as_str()) {
            Ok(v) => v,
            Err(_) => {
                return Err(AppError::Message(String::from_str("Stored project languages are not a JSON list")));
            },
        };
        Ok(ProjectRecord {
            id: row.id,
            name: row.name,
            slug: row.slug,
            project_type: row.project_type,
            languages,
            description: row.description,
            template_id: row.template_id,
            base_path: row.base_path,
            created_at: row.created_at,
            updated_at: row.updated_at,
        })
    }
}

} // verus!
