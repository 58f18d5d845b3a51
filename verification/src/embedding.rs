use vstd::prelude::*;

use crate::editor::{blake3_digest, blake3_text_digest};
use crate::text::{chars_eq, chars_of, extend_str, string_of, words};
use crate::tokenize::{
    canonicalize_semantic_token, char_ngrams, embedder_kind_of, features_of, ngrams_of,
    resolve_embedder_kind, semantic_token_of, strings_view, tokenize_vec, EmbedderKind,
};

verus! {

/// The length of every embedding vector.
pub const EMBED_DIM: usize = 64;

/// The provider, vector version and dimension of the active embedder.
#[derive(Debug, Clone, PartialEq, Eq)]
pub struct EmbeddingProfile {
    pub provider: String,
    pub vector_version: String,
    pub dim: usize,
}

/// The token-hashing embedder.
#[derive(Debug, Clone, Copy, Default)]
pub struct HashEmbedder;

impl HashEmbedder {
    pub fn provider(&self) -> (r: &'static str)
        ensures
            r@ == "hash"@,
    {
        "hash"
    }

    pub fn vector_version(&self) -> (r: &'static str)
        ensures
            r@ == "hash-v1"@,
    {
        "hash-v1"
    }
}

/// The embedder that folds tokens onto semantic canonical forms first.
#[derive(Debug, Clone, Copy, Default)]
pub struct SemanticLiteEmbedder;

impl SemanticLiteEmbedder {
    pub fn provider(&self) -> (r: &'static str)
        ensures
            r@ == "semantic-lite"@,
    {
        "semantic-lite"
    }

    pub fn vector_version(&self) -> (r: &'static str)
        ensures
            r@ == "semantic-lite-v1"@,
    {
        "semantic-lite-v1"
    }
}

/// The embedder a process runs with.
#[derive(Debug, Clone, PartialEq, Eq)]
pub enum ActiveEmbedder {
    SemanticLite,
    Hash,
    /// A local model server; the version names the model and endpoint.
    SemanticModelHttp { vector_version: String },
}

/// How the embedder is to be set up.
#[derive(Debug, Clone, PartialEq, Eq)]
pub struct EmbedderRuntimeConfig {
    pub kind: Option<String>,
    pub model_endpoint: Option<String>,
    pub model_name: Option<String>,
    pub model_timeout_ms: Option<u64>,
    pub strict: bool,
}

pub open spec fn opt_view(o: Option<String>) -> Option<Seq<char>> {
    match o {
        Some(s) => Some(s@),
        None => None,
    }
}

/// Two configurations ask for the same setup.
pub open spec fn same_config(a: EmbedderRuntimeConfig, b: EmbedderRuntimeConfig) -> bool {
    &&& opt_view(a.kind) == opt_view(b.kind)
    &&& opt_view(a.model_endpoint) == opt_view(b.model_endpoint)
    &&& opt_view(a.model_name) == opt_view(b.model_name)
    &&& a.model_timeout_ms == b.model_timeout_ms
    &&& a.strict == b.strict
}

/// The configuration used when none was given.
pub open spec fn default_config() -> EmbedderRuntimeConfig {
    EmbedderRuntimeConfig {
        kind: None,
        model_endpoint: None,
        model_name: None,
        model_timeout_ms: None,
        strict: false,
    }
}

impl EmbedderRuntimeConfig {
    pub fn default_config() -> (r: Self)
        ensures
            r == default_config(),
    {
        EmbedderRuntimeConfig {
            kind: None,
            model_endpoint: None,
            model_name: None,
            model_timeout_ms: None,
            strict: false,
        }
    }
}

fn same_opt(a: &Option<String>, b: &Option<String>) -> (r: bool)
    ensures
        r == (opt_view(*a) == opt_view(*b)),
{
    match (a, b) {
        (Some(x), Some(y)) => chars_eq(&chars_of(x.as_str()), &chars_of(y.as_str())),
        (None, None) => true,
        _ => false,
    }
}

fn copy_opt(a: &Option<String>) -> (r: Option<String>)
    ensures
        opt_view(r) == opt_view(*a),
{
    match a {
        Some(x) => Some(string_of(&chars_of(x.as_str()))),
        None => None,
    }
}

/// Whether two configurations ask for the same setup.
pub fn validate_runtime_config(existing: &EmbedderRuntimeConfig, proposed: &EmbedderRuntimeConfig) -> (r: Result<
    (),
    String,
>)
    ensures
        r is Ok <==> same_config(*existing, *proposed),
        r matches Err(m) ==> m@
            == "embedding runtime config conflict: already initialized with different values"@,
{
    if same_opt(&existing.kind, &proposed.kind) && same_opt(
        &existing.model_endpoint,
        &proposed.model_endpoint,
    ) && same_opt(&existing.model_name, &proposed.model_name) && existing.model_timeout_ms
        == proposed.model_timeout_ms && existing.strict == proposed.strict {
        Ok(())
    } else {
        Err(
            string_of(
                &chars_of(
                    "embedding runtime config conflict: already initialized with different values",
                ),
            ),
        )
    }
}

/// The configuration in force: the given one, else the defaults.
pub open spec fn config_or_default(c: Option<EmbedderRuntimeConfig>) -> EmbedderRuntimeConfig {
    match c {
        Some(c) => c,
        None => default_config(),
    }
}

/// The embedder built for a kind: the lite and hash kinds build their own
/// embedder; the model kind builds the model client when its setup gave a
/// vector version, and falls back to the lite embedder otherwise.
pub open spec fn chosen_embedder(
    kind: EmbedderKind,
    model_setup: Option<Result<String, String>>,
) -> ActiveEmbedder {
    match kind {
        EmbedderKind::SemanticLite => ActiveEmbedder::SemanticLite,
        EmbedderKind::Hash => ActiveEmbedder::Hash,
        EmbedderKind::SemanticModelHttp => match model_setup {
            Some(Ok(v)) => ActiveEmbedder::SemanticModelHttp { vector_version: v },
            _ => ActiveEmbedder::SemanticLite,
        },
    }
}

/// The strict-mode failure after building an embedder: a failed model setup
/// in strict mode is kept when no failure was kept before.
pub open spec fn strict_error_after(
    before: Option<Seq<char>>,
    c: EmbedderRuntimeConfig,
    model_setup: Option<Result<String, String>>,
) -> Option<Seq<char>> {
    match model_setup {
        Some(Err(e)) => if embedder_kind_of(opt_view(c.kind)) == EmbedderKind::SemanticModelHttp
            && c.strict && before is None {
            Some("semantic-model-http initialization failed: "@ + e@)
        } else {
            before
        },
        _ => before,
    }
}

/// The process-wide embedding state: the configuration once it is fixed,
/// the embedder once it is built, and the first strict-mode failure.
pub struct EmbeddingRuntime {
    pub config: Option<EmbedderRuntimeConfig>,
    pub embedder: Option<ActiveEmbedder>,
    pub strict_error: Option<String>,
}

impl EmbeddingRuntime {
    pub fn new() -> (r: Self)
        ensures
            r.config is None,
            r.embedder is None,
            r.strict_error is None,
    {
        EmbeddingRuntime { config: None, embedder: None, strict_error: None }
    }

    /// Fixes the configuration. Once it is fixed, or once an embedder was
    /// built with the defaults, only the same configuration is accepted.
    pub fn configure_runtime(&mut self, config: EmbedderRuntimeConfig) -> (r: Result<(), String>)
        ensures
            match old(self).config {
                Some(existing) => final(self).config == old(self).config && (r is Ok <==> same_config(
                    existing,
                    config,
                )),
                None => if old(self).embedder is Some {
                    final(self).config == Some(default_config()) && (r is Ok <==> same_config(
                        default_config(),
                        config,
                    ))
                } else {
                    final(self).config == Some(config) && r is Ok
                },
            },
            final(self).embedder == old(self).embedder,
            final(self).strict_error == old(self).strict_error,
            r matches Err(m) ==> m@
                == "embedding runtime config conflict: already initialized with different values"@,
    {
        match &self.config {
            Some(existing) => validate_runtime_config(existing, &config),
            None => {
                if self.embedder.is_some() {
                    let d = EmbedderRuntimeConfig::default_config();
                    let r = validate_runtime_config(&d, &config);
                    self.config = Some(d);
                    r
                } else {
                    self.config = Some(config);
                    Ok(())
                }
            },
        }
    }

    /// Whether strict mode is on; fixes the default configuration if none
    /// was given.
    pub fn embedding_strict_mode(&mut self) -> (r: bool)
        ensures
            final(self).config == match old(self).config {
                Some(c) => Some(c),
                None => Some(default_config()),
            },
            r == final(self).config->0.strict,
            final(self).embedder == old(self).embedder,
            final(self).strict_error == old(self).strict_error,
    {
        if self.config.is_none() {
            self.config = Some(EmbedderRuntimeConfig::default_config());
        }
        match &self.config {
            Some(c) => c.strict,
            None => false,
        }
    }

    /// Keeps the first strict-mode failure; later ones are dropped.
    pub fn record_strict_embedder_error(&mut self, message: &str)
        ensures
            match old(self).strict_error {
                Some(e) => final(self).strict_error == Some(e),
                None => final(self).strict_error matches Some(e) && e@ == message@,
            },
            final(self).config == old(self).config,
            final(self).embedder == old(self).embedder,
    {
        if self.strict_error.is_none() {
            self.strict_error = Some(string_of(&chars_of(message)));
        }
    }

    /// The first strict-mode failure, if any.
    pub fn embedding_strict_error(&self) -> (r: Option<String>)
        ensures
            opt_view(r) == opt_view(self.strict_error),
    {
        copy_opt(&self.strict_error)
    }

    pub fn clear_embedding_strict_error(&mut self)
        ensures
            final(self).strict_error is None,
            final(self).config == old(self).config,
            final(self).embedder == old(self).embedder,
    {
        self.strict_error = None;
    }

    /// The kind of embedder the configuration asks for; fixes the default
    /// configuration if none was given.
    pub fn requested_kind(&mut self) -> (k: EmbedderKind)
        ensures
            final(self).config == match old(self).config {
                Some(c) => Some(c),
                None => Some(default_config()),
            },
            k == embedder_kind_of(opt_view(final(self).config->0.kind)),
            final(self).embedder == old(self).embedder,
            final(self).strict_error == old(self).strict_error,
    {
        if self.config.is_none() {
            self.config = Some(EmbedderRuntimeConfig::default_config());
        }
        match &self.config {
            Some(c) => match &c.kind {
                Some(s) => resolve_embedder_kind(Some(s.as_str())),
                None => resolve_embedder_kind(None),
            },
            None => resolve_embedder_kind(None),
        }
    }

    /// Builds the embedder once. `model_setup` is what setting up the model
    /// client gave (its vector version, or why it failed) and only matters
    /// for the model kind: a failure falls back to the lite embedder and, in
    /// strict mode, is kept as the strict-mode failure.
    pub fn install_embedder(&mut self, model_setup: Option<Result<String, String>>)
        ensures
            old(self).embedder is Some ==> final(self).embedder == old(self).embedder
                && final(self).config == old(self).config && final(self).strict_error == old(
                self,
            ).strict_error,
            old(self).embedder is None ==> {
                let c = config_or_default(old(self).config);
                &&& final(self).config == Some(c)
                &&& final(self).embedder == Some(
                    chosen_embedder(embedder_kind_of(opt_view(c.kind)), model_setup),
                )
                &&& opt_view(final(self).strict_error) == strict_error_after(
                    opt_view(old(self).strict_error),
                    c,
                    model_setup,
                )
            },
    {
        if self.embedder.is_some() {
            return ;
        }
        let kind = self.requested_kind();
        let chosen = match kind {
            EmbedderKind::SemanticLite => ActiveEmbedder::SemanticLite,
            EmbedderKind::Hash => ActiveEmbedder::Hash,
            EmbedderKind::SemanticModelHttp => match model_setup {
                Some(Ok(version)) => ActiveEmbedder::SemanticModelHttp { vector_version: version },
                Some(Err(err)) => {
                    if self.embedding_strict_mode() {
                        let mut m = chars_of("semantic-model-http initialization failed: ");
                        extend_str(&mut m, err.as_str());
                        self.record_strict_embedder_error(string_of(&m).as_str());
                    }
                    ActiveEmbedder::SemanticLite
                },
                None => ActiveEmbedder::SemanticLite,
            },
        };
        self.embedder = Some(chosen);
    }

    /// The profile of the built embedder.
    pub fn embedding_profile(&self) -> (r: Option<EmbeddingProfile>)
        ensures
            match self.embedder {
                None => r is None,
                Some(ActiveEmbedder::SemanticLite) => r matches Some(p) && p.provider@
                    == "semantic-lite"@ && p.vector_version@ == "semantic-lite-v1"@ && p.dim
                    == EMBED_DIM,
                Some(ActiveEmbedder::Hash) => r matches Some(p) && p.provider@ == "hash"@
                    && p.vector_version@ == "hash-v1"@ && p.dim == EMBED_DIM,
                Some(ActiveEmbedder::SemanticModelHttp { vector_version }) => r matches Some(p)
                    && p.provider@ == "semantic-model-http"@ && p.vector_version@
                    == vector_version@ && p.dim == EMBED_DIM,
            },
    {
        match &self.embedder {
            None => None,
            Some(ActiveEmbedder::SemanticLite) => Some(
                EmbeddingProfile {
                    provider: string_of(&chars_of("semantic-lite")),
                    vector_version: string_of(&chars_of("semantic-lite-v1")),
                    dim: EMBED_DIM,
                },
            ),
            Some(ActiveEmbedder::Hash) => Some(
                EmbeddingProfile {
                    provider: string_of(&chars_of("hash")),
                    vector_version: string_of(&chars_of("hash-v1")),
                    dim: EMBED_DIM,
                },
            ),
            Some(ActiveEmbedder::SemanticModelHttp { vector_version }) => Some(
                EmbeddingProfile {
                    provider: string_of(&chars_of("semantic-model-http")),
                    vector_version: string_of(&chars_of(vector_version.as_str())),
                    dim: EMBED_DIM,
                },
            ),
        }
    }
}

// ---------------------------------------------------------------------------
// Features of the local embedders
// ---------------------------------------------------------------------------

/// The slot of a feature: the first two bytes of its BLAKE3 digest, big
/// endian, modulo the dimension.
pub open spec fn bucket_of(d: Seq<u8>) -> nat {
    ((d[0] as nat) * 256 + (d[1] as nat)) % (EMBED_DIM as nat)
}

pub fn feature_bucket(feature: &str) -> (r: usize)
    ensures
        r == bucket_of(blake3_text_digest(feature@)),
        r < EMBED_DIM,
{
    let d = blake3_digest(feature);
    let hi = d[0] as usize;
    let lo = d[1] as usize;
    (hi * 256 + lo) % EMBED_DIM
}

/// The tokens of a text, plain ones first, then symbolic ones.
pub open spec fn text_tokens(text: Seq<char>) -> Seq<Seq<char>> {
    features_of(words(text)).0 + features_of(words(text)).1
}

/// The tokens of a text mapped to their semantic canonical forms.
pub open spec fn semantic_tokens(text: Seq<char>) -> Seq<Seq<char>> {
    text_tokens(text).map_values(|t: Seq<char>| semantic_token_of(t))
}

/// Each token with weight 1000, followed by its character trigrams
/// (`tri:` before each) with weight 350. Weights are thousandths.
pub open spec fn token_features(toks: Seq<Seq<char>>) -> Seq<(Seq<char>, nat)>
    decreases toks.len(),
{
    if toks.len() == 0 {
        Seq::empty()
    } else {
        token_features(toks.drop_last()) + seq![(toks.last(), 1000nat)] + ngrams_of(
            toks.last(),
            3,
        ).map_values(|g: Seq<char>| ("tri:"@ + g, 350nat))
    }
}

/// Each pair of neighbouring tokens as `bi:a_b`, weight 800.
pub open spec fn pair_features(toks: Seq<Seq<char>>) -> Seq<(Seq<char>, nat)> {
    if toks.len() < 2 {
        Seq::empty()
    } else {
        Seq::new(
            (toks.len() - 1) as nat,
            |i: int| ("bi:"@ + toks[i] + "_"@ + toks[i + 1], 800nat),
        )
    }
}

/// The weighted features the semantic-lite embedder adds up.
pub open spec fn semantic_features_of(text: Seq<char>) -> Seq<(Seq<char>, nat)> {
    token_features(semantic_tokens(text)) + pair_features(semantic_tokens(text))
}

pub open spec fn weighted_view(v: Seq<(String, u16)>) -> Seq<(Seq<char>, nat)> {
    v.map_values(|p: (String, u16)| (p.0@, p.1 as nat))
}

fn push_weighted(out: &mut Vec<(String, u16)>, prefix: &str, a: &str, sep: &str, b: &str, w: u16)
    ensures
        weighted_view(final(out)@) == weighted_view(old(out)@).push(
            (prefix@ + a@ + sep@ + b@, w as nat),
        ),
{
    let mut f = chars_of(prefix);
    extend_str(&mut f, a);
    extend_str(&mut f, sep);
    extend_str(&mut f, b);
    let ghost before = weighted_view(out@);
    out.push((string_of(&f), w));
    assert(weighted_view(out@) =~= before.push((prefix@ + a@ + sep@ + b@, w as nat)));
}

/// The weighted features of a text for the semantic-lite embedder.
pub fn semantic_features(text: &str) -> (out: Vec<(String, u16)>)
    ensures
        weighted_view(out@) == semantic_features_of(text@),
{
    let raw = tokenize_vec(text);
    let mut toks: Vec<String> = Vec::new();
    let mut i: usize = 0;
    while i < raw.len()
        invariant
            i <= raw@.len(),
            strings_view(raw@) == text_tokens(text@),
            strings_view(toks@) == semantic_tokens(text@).take(i as int),
        decreases raw.len() - i,
    {
        let ghost before = strings_view(toks@);
        toks.push(canonicalize_semantic_token(raw[i].as_str()));
        assert(strings_view(toks@) =~= before.push(semantic_tokens(text@)[i as int]));
        assert(semantic_tokens(text@).take(i + 1) =~= semantic_tokens(text@).take(i as int).push(
            semantic_tokens(text@)[i as int],
        ));
        i = i + 1;
    }
    assert(semantic_tokens(text@).take(raw@.len() as int) =~= semantic_tokens(text@));
    let ghost st = strings_view(toks@);
    let mut out: Vec<(String, u16)> = Vec::new();
    let mut k: usize = 0;
    assert(st.take(0) =~= Seq::<Seq<char>>::empty());
    while k < toks.len()
        invariant
            k <= toks@.len(),
            st == strings_view(toks@),
            weighted_view(out@) == token_features(st.take(k as int)),
        decreases toks.len() - k,
    {
        let t = toks[k].as_str();
        assert(st.take(k + 1).drop_last() =~= st.take(k as int));
        assert(st.take(k + 1).last() == t@);
        push_weighted(&mut out, "", t, "", "", 1000);
        proof {
            reveal_strlit("");
        }
        assert(weighted_view(out@) =~= token_features(st.take(k as int)) + seq![(t@, 1000nat)]);
        let grams = char_ngrams(t, 3);
        let ghost base = weighted_view(out@);
        let ghost gv = strings_view(grams@).map_values(|g: Seq<char>| ("tri:"@ + g, 350nat));
        let mut g: usize = 0;
        while g < grams.len()
            invariant
                g <= grams@.len(),
                gv == strings_view(grams@).map_values(|g: Seq<char>| ("tri:"@ + g, 350nat)),
                weighted_view(out@) == base + gv.take(g as int),
            decreases grams.len() - g,
        {
            push_weighted(&mut out, "tri:", grams[g].as_str(), "", "", 350);
            proof {
                reveal_strlit("");
            }
            assert(gv[g as int] == ("tri:"@ + grams@[g as int]@, 350nat));
            assert(gv.take(g + 1) =~= gv.take(g as int).push(gv[g as int]));
            assert(weighted_view(out@) =~= base + gv.take(g + 1));
            g = g + 1;
        }
        assert(gv.take(grams@.len() as int) =~= gv);
        assert(weighted_view(out@) =~= token_features(st.take(k + 1)));
        k = k + 1;
    }
    assert(st.take(toks@.len() as int) =~= st);
    let ghost head = weighted_view(out@);
    let ghost pf = pair_features(st);
    if toks.len() >= 2 {
        let mut j: usize = 0;
        while j + 1 < toks.len()
            invariant
                j + 1 <= toks@.len(),
                toks@.len() >= 2,
                st == strings_view(toks@),
                pf == pair_features(st),
                weighted_view(out@) == head + pf.take(j as int),
            decreases toks.len() - j,
        {
            push_weighted(&mut out, "bi:", toks[j].as_str(), "_", toks[j + 1].as_str(), 800);
            assert(pf[j as int] == ("bi:"@ + st[j as int] + "_"@ + st[j + 1], 800nat));
            assert(pf.take(j + 1) =~= pf.take(j as int).push(pf[j as int]));
            j = j + 1;
        }
        assert(pf.take(j as int) =~= pf);
    } else {
        assert(pf =~= Seq::<(Seq<char>, nat)>::empty());
    }
    out
}

} // verus!
