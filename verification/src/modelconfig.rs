//! Model orchestration settings: which ASR, aligner, diarization and LLM
//! models the pipeline uses, merged over built-in defaults.

use vstd::prelude::*;

use crate::text::{blank, is_blank, owned, push_char, push_str, str_eq};

verus! {

#[derive(Debug)]
pub struct ModelConfig {
    pub asr_model: String,
    pub asr_aligner: String,
    pub diarize_model: String,
    pub hf_token: String,
    pub llm_endpoint: String,
    pub llm_api_key: String,
    pub llm_model: String,
    pub worker_count: u32,
}

/// The diarization pipeline this build installs and validates.
pub open spec fn supported_diarize_model() -> Seq<char> {
    "pyannote/speaker-diarization-3.1"@
}

/// Memory-bounded defaults for Apple-silicon ASR and portable diarization.
pub fn defaults() -> (r: ModelConfig)
    ensures
        r.asr_model@ == "mlx-community/Qwen3-ASR-0.6B-8bit"@,
        r.asr_aligner@ == "mlx-community/Qwen3-ForcedAligner-0.6B-4bit"@,
        r.diarize_model@ == supported_diarize_model(),
        r.hf_token@.len() == 0,
        r.llm_endpoint@.len() == 0,
        r.llm_api_key@.len() == 0,
        r.llm_model@ == "gpt-4o-mini"@,
        r.worker_count == 4,
{
    ModelConfig {
        asr_model: "mlx-community/Qwen3-ASR-0.6B-8bit".to_string(),
        asr_aligner: "mlx-community/Qwen3-ForcedAligner-0.6B-4bit".to_string(),
        diarize_model: "pyannote/speaker-diarization-3.1".to_string(),
        hf_token: String::new(),
        llm_endpoint: String::new(),
        llm_api_key: String::new(),
        llm_model: "gpt-4o-mini".to_string(),
        worker_count: 4,
    }
}

impl Default for ModelConfig {
    fn default() -> (r: Self)
        ensures
            r.asr_model@ == "mlx-community/Qwen3-ASR-0.6B-8bit"@,
            r.asr_aligner@ == "mlx-community/Qwen3-ForcedAligner-0.6B-4bit"@,
            r.diarize_model@ == supported_diarize_model(),
            r.hf_token@.len() == 0,
            r.llm_endpoint@.len() == 0,
            r.llm_api_key@.len() == 0,
            r.llm_model@ == "gpt-4o-mini"@,
            r.worker_count == 4,
    {
        defaults()
    }
}

/// Fields found in a settings file; absent ones keep their current value.
#[derive(Debug)]
pub struct ModelConfigOverrides {
    pub asr_model: Option<String>,
    pub diarize_model: Option<String>,
    pub hf_token: Option<String>,
    pub asr_aligner: Option<String>,
    pub llm_endpoint: Option<String>,
    pub llm_api_key: Option<String>,
    pub llm_model: Option<String>,
    pub worker_count: Option<u64>,
}

/// A persisted diarization model id, with the prerelease community pipeline
/// (which needs an incompatible runtime) mapped to the supported one.
pub open spec fn diarize_model_spec(s: Seq<char>) -> Seq<char> {
    if s == "pyannote/speaker-diarization-community-1"@ {
        supported_diarize_model()
    } else {
        s
    }
}

pub fn normalize_diarize_model(s: &str) -> (r: String)
    ensures
        r@ == diarize_model_spec(s@),
{
    if str_eq(s, "pyannote/speaker-diarization-community-1") {
        "pyannote/speaker-diarization-3.1".to_string()
    } else {
        owned(s)
    }
}

pub open spec fn pick(o: Option<String>, current: Seq<char>) -> Seq<char> {
    match o {
        Some(s) => s@,
        None => current,
    }
}

fn take_or(o: Option<String>, current: String) -> (r: String)
    ensures
        r@ == pick(o, current@),
{
    match o {
        Some(s) => s,
        None => current,
    }
}

impl ModelConfig {
    /// The configuration with every field found in a settings file laid
    /// over it (worker counts keep their low 32 bits, as `as u32` does).
    pub fn merged(self, o: ModelConfigOverrides) -> (r: ModelConfig)
        ensures
            r.asr_model@ == pick(o.asr_model, self.asr_model@),
            r.diarize_model@ == match o.diarize_model {
                Some(s) => diarize_model_spec(s@),
                None => self.diarize_model@,
            },
            r.hf_token@ == pick(o.hf_token, self.hf_token@),
            r.asr_aligner@ == pick(o.asr_aligner, self.asr_aligner@),
            r.llm_endpoint@ == pick(o.llm_endpoint, self.llm_endpoint@),
            r.llm_api_key@ == pick(o.llm_api_key, self.llm_api_key@),
            r.llm_model@ == pick(o.llm_model, self.llm_model@),
            r.worker_count == match o.worker_count {
                Some(n) => (n % 0x1_0000_0000) as u32,
                None => self.worker_count,
            },
    {
        let diarize_model = match o.diarize_model {
            Some(s) => normalize_diarize_model(s.as_str()),
            None => self.diarize_model,
        };
        let worker_count = match o.worker_count {
            Some(n) => (n % 0x1_0000_0000) as u32,
            None => self.worker_count,
        };
        ModelConfig {
            asr_model: take_or(o.asr_model, self.asr_model),
            asr_aligner: take_or(o.asr_aligner, self.asr_aligner),
            diarize_model,
            hf_token: take_or(o.hf_token, self.hf_token),
            llm_endpoint: take_or(o.llm_endpoint, self.llm_endpoint),
            llm_api_key: take_or(o.llm_api_key, self.llm_api_key),
            llm_model: take_or(o.llm_model, self.llm_model),
            worker_count,
        }
    }
}

/// Whether the built-in worker has enough provider information to run: an
/// endpoint and a model. API keys stay optional for local services.
pub fn llm_configured(cfg: &ModelConfig) -> (r: bool)
    ensures
        r == (!is_blank(cfg.llm_endpoint@) && !is_blank(cfg.llm_model@)),
{
    !blank(cfg.llm_endpoint.as_str()) && !blank(cfg.llm_model.as_str())
}

/// Each `/` of a model id becomes `--`.
pub open spec fn slash_to_dashes(s: Seq<char>) -> Seq<char>
    decreases s.len(),
{
    if s.len() == 0 {
        Seq::empty()
    } else {
        slash_to_dashes(s.drop_last()) + if s.last() == '/' {
            seq!['-', '-']
        } else {
            seq![s.last()]
        }
    }
}

/// Hugging Face cache directory of a repository: `models--org--name`.
pub fn cache_repo_dir(model_id: &str) -> (r: String)
    ensures
        r@ == "models--"@ + slash_to_dashes(model_id@),
{
    let mut out = String::new();
    push_str(&mut out, "models--");
    let n = model_id.unicode_len();
    let mut i: usize = 0;
    while i < n
        invariant
            n == model_id@.len(),
            0 <= i <= n,
            out@ == "models--"@ + slash_to_dashes(model_id@.subrange(0, i as int)),
        decreases n - i,
    {
        let c = model_id.get_char(i);
        if c == '/' {
            push_char(&mut out, '-');
            push_char(&mut out, '-');
        } else {
            push_char(&mut out, c);
        }
        assert(model_id@.subrange(0, i + 1).drop_last() =~= model_id@.subrange(0, i as int));
        i = i + 1;
        assert(out@ =~= "models--"@ + slash_to_dashes(model_id@.subrange(0, i as int)));
    }
    assert(model_id@.subrange(0, n as int) =~= model_id@);
    out
}

/// The repositories whose weights must be cached, besides the pipeline
/// itself, before a diarization pipeline counts as ready; `None` for a
/// pipeline this build cannot run.
pub fn diarize_dependencies(model_id: &str) -> (r: Option<Vec<String>>)
    ensures
        model_id@ == supported_diarize_model() ==> (r matches Some(v) && v@.len() == 2
            && v@[0]@ == "pyannote/segmentation-3.0"@ && v@[1]@
            == "pyannote/wespeaker-voxceleb-resnet34-LM"@),
        model_id@ != supported_diarize_model() ==> r is None,
{
    if str_eq(model_id, "pyannote/speaker-diarization-3.1") {
        let mut v: Vec<String> = Vec::new();
        v.push("pyannote/segmentation-3.0".to_string());
        v.push("pyannote/wespeaker-voxceleb-resnet34-LM".to_string());
        Some(v)
    } else {
        None
    }
}

/// Settings as shown to the webview: secrets cleared, their presence kept.
#[derive(Debug)]
pub struct PublicModelConfig {
    pub config: ModelConfig,
    pub hf_token_set: bool,
    pub llm_api_key_set: bool,
}

/// Clears every secret, reporting which ones were set.
pub fn redact_model_config(config: ModelConfig) -> (r: PublicModelConfig)
    ensures
        r.hf_token_set == !is_blank(config.hf_token@),
        r.llm_api_key_set == !is_blank(config.llm_api_key@),
        r.config.hf_token@.len() == 0,
        r.config.llm_api_key@.len() == 0,
        r.config.asr_model@ == config.asr_model@,
        r.config.asr_aligner@ == config.asr_aligner@,
        r.config.diarize_model@ == config.diarize_model@,
        r.config.llm_endpoint@ == config.llm_endpoint@,
        r.config.llm_model@ == config.llm_model@,
        r.config.worker_count == config.worker_count,
{
    let hf_token_set = !blank(config.hf_token.as_str());
    let llm_api_key_set = !blank(config.llm_api_key.as_str());
    let mut config = config;
    config.hf_token = String::new();
    config.llm_api_key = String::new();
    PublicModelConfig { config, hf_token_set, llm_api_key_set }
}

/// Whether `s` ends with `suffix`.
pub open spec fn ends_with(s: Seq<char>, suffix: Seq<char>) -> bool {
    suffix.len() <= s.len() && s.subrange(s.len() - suffix.len(), s.len() as int) == suffix
}

fn has_suffix(s: &str, suffix: &str) -> (r: bool)
    ensures
        r == ends_with(s@, suffix@),
{
    let n = s.unicode_len();
    let m = suffix.unicode_len();
    if m > n {
        return false;
    }
    let mut i: usize = 0;
    while i < m
        invariant
            n == s@.len(),
            m == suffix@.len(),
            m <= n,
            0 <= i <= m,
            forall|k: int| 0 <= k < i ==> s@[n - m + k] == suffix@[k],
        decreases m - i,
    {
        if s.get_char(n - m + i) != suffix.get_char(i) {
            assert(s@.subrange(n - m, n as int)[i as int] != suffix@[i as int]);
            return false;
        }
        i = i + 1;
    }
    assert(s@.subrange(n - m, n as int) =~= suffix@);
    true
}

/// A model snapshot file counts as materialized weights when its name has a
/// weight extension and it holds more than a megabyte (a placeholder or a
/// pointer file is smaller).
pub open spec fn weight_file_spec(name: Seq<char>, len: u64) -> bool {
    (ends_with(name, ".safetensors"@) || ends_with(name, ".npz"@) || ends_with(name, ".bin"@)
        || ends_with(name, ".ckpt"@) || ends_with(name, ".pt"@) || ends_with(name, ".pth"@)
        || ends_with(name, ".onnx"@)) && len > 1_000_000
}

pub fn is_weight_file(name: &str, len: u64) -> (r: bool)
    ensures
        r == weight_file_spec(name@, len),
{
    let named = has_suffix(name, ".safetensors") || has_suffix(name, ".npz") || has_suffix(name, ".bin")
        || has_suffix(name, ".ckpt") || has_suffix(name, ".pt") || has_suffix(name, ".pth")
        || has_suffix(name, ".onnx");
    named && len > 1_000_000
}


/// What a model snapshot directory holds, as the cache check reads it: the
/// sizes of its `config.json` and `config.yaml` (where present), and the
/// name and size of each file within two levels below it.
#[derive(Debug)]
pub struct SnapshotFiles {
    pub config_sizes: Vec<u64>,
    pub files: Vec<(String, u64)>,
}

/// A snapshot counts when a config file is not empty and, where weights
/// are asked for, some file is a materialized weight file.
pub open spec fn snapshot_ready_spec(s: &SnapshotFiles, require_weights: bool) -> bool {
    &&& exists|i: int| 0 <= i < s.config_sizes@.len() && #[trigger] s.config_sizes@[i] > 0
    &&& require_weights ==> exists|i: int|
        #![trigger s.files@[i]]
        0 <= i < s.files@.len() && weight_file_spec(s.files@[i].0@, s.files@[i].1)
}

/// Whether one snapshot holds a usable copy of the model.
pub fn snapshot_ready(s: &SnapshotFiles, require_weights: bool) -> (r: bool)
    ensures
        r == snapshot_ready_spec(s, require_weights),
{
    let mut has_config = false;
    let mut i: usize = 0;
    while i < s.config_sizes.len()
        invariant
            0 <= i <= s.config_sizes@.len(),
            has_config == exists|k: int| 0 <= k < i && #[trigger] s.config_sizes@[k] > 0,
        decreases s.config_sizes@.len() - i,
    {
        if s.config_sizes[i] > 0 {
            has_config = true;
        }
        i = i + 1;
    }
    if !has_config {
        return false;
    }
    if !require_weights {
        return true;
    }
    let mut j: usize = 0;
    while j < s.files.len()
        invariant
            0 <= j <= s.files@.len(),
            exists|k: int| 0 <= k < s.config_sizes@.len() && #[trigger] s.config_sizes@[k] > 0,
            forall|k: int|
                #![trigger s.files@[k]]
                0 <= k < j ==> !weight_file_spec(s.files@[k].0@, s.files@[k].1),
        decreases s.files@.len() - j,
    {
        if is_weight_file(s.files[j].0.as_str(), s.files[j].1) {
            assert(weight_file_spec(s.files@[j as int].0@, s.files@[j as int].1));
            return true;
        }
        j = j + 1;
    }
    false
}

/// Whether any snapshot of a cached repository holds a usable copy.
pub fn any_snapshot_ready(snapshots: &Vec<SnapshotFiles>, require_weights: bool) -> (r: bool)
    ensures
        r == exists|i: int|
            0 <= i < snapshots@.len() && snapshot_ready_spec(#[trigger] &snapshots@[i], require_weights),
{
    let mut i: usize = 0;
    while i < snapshots.len()
        invariant
            0 <= i <= snapshots@.len(),
            forall|k: int| 0 <= k < i ==> !snapshot_ready_spec(#[trigger] &snapshots@[k], require_weights),
        decreases snapshots@.len() - i,
    {
        if snapshot_ready(&snapshots[i], require_weights) {
            assert(snapshot_ready_spec(&snapshots@[i as int], require_weights));
            return true;
        }
        i = i + 1;
    }
    false
}

} // verus!
