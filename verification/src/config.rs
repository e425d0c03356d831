//! The model catalogue and the languages each model covers.

use crate::text;
use crate::text::{find_char, is_listed, same};
use vstd::prelude::*;

verus! {

/// The speech-to-text services.
pub const PROVIDERS: [&'static str; 4] = ["assemblyai", "deepgram", "groq", "fireworks"];

/// The language code that asks for detection.
pub const AUTO_LANG: &'static str = "auto";

/// Language coverage of a model in one mode.
#[derive(Clone, Copy, PartialEq)]
pub enum LangCoverage {
    /// English only.
    English,
    /// Code-switching or detection among these codes.
    Among(&'static [&'static str]),
    /// About a hundred languages, detected, in any mix.
    All,
}

/// What a coverage means: a set of codes, or all of them.
pub ghost enum CoverageView {
    English,
    Among(Seq<Seq<char>>),
    All,
}

impl View for LangCoverage {
    type V = CoverageView;

    open spec fn view(&self) -> CoverageView {
        match *self {
            LangCoverage::English => CoverageView::English,
            LangCoverage::Among(s) => CoverageView::Among(text::strs(s@)),
            LangCoverage::All => CoverageView::All,
        }
    }
}

impl CoverageView {
    /// Whether this coverage handles the single language `l`. "auto" only asks for detection,
    /// which every coverage does within its own set.
    pub open spec fn handles(self, l: Seq<char>) -> bool {
        match self {
            CoverageView::All => true,
            CoverageView::English => l == "en"@ || l == AUTO_LANG@,
            CoverageView::Among(s) => l == AUTO_LANG@ || text::holds(s, l),
        }
    }

    /// Whether this coverage handles every required language together.
    pub open spec fn covers(self, required: Seq<Seq<char>>) -> bool {
        forall|i: int| 0 <= i < required.len() ==> self.handles(#[trigger] required[i])
    }
}

fn handles(cov: &LangCoverage, l: &str) -> (r: bool)
    ensures
        r == cov@.handles(l@),
{
    match cov {
        LangCoverage::All => true,
        LangCoverage::English => same(l, "en") || same(l, AUTO_LANG),
        LangCoverage::Among(s) => {
            if same(l, AUTO_LANG) {
                return true;
            }
            let r: bool = is_listed(s, l);
            proof {
                if r {
                    let i = choose|i: int| 0 <= i < s@.len() && (#[trigger] s@[i])@ == l@;
                    assert(text::strs(s@)[i] == l@);
                } else {
                    assert forall|i: int| 0 <= i < text::strs(s@).len() implies #[trigger] text::strs(s@)[i]
                        != l@ by {
                        assert(s@[i]@ != l@);
                    }
                }
            }
            r
        },
    }
}

impl LangCoverage {
    /// Whether this coverage can handle every required language together.
    pub fn covers(&self, required: &[&str]) -> (r: bool)
        ensures
            r == self@.covers(text::strs(required@)),
    {
        let mut i: usize = 0;
        while i < required.len()
            invariant
                i <= required.len(),
                forall|j: int| 0 <= j < i ==> self@.handles(#[trigger] text::strs(required@)[j]),
            decreases required.len() - i,
        {
            if !handles(self, required[i]) {
                assert(!self@.handles(text::strs(required@)[i as int]));
                return false;
            }
            i += 1;
        }
        true
    }
}

/// What a model can do.
#[derive(Clone, Copy)]
pub struct ModelCaps {
    /// Streaming coverage; `None` when the model cannot stream.
    pub live: Option<LangCoverage>,
    /// File coverage; `None` when the model takes no files.
    pub batch: Option<LangCoverage>,
    /// Fallback preference, lower is preferred.
    pub rank: u32,
}

/// What a model can do.
pub ghost struct CapsView {
    pub live: Option<CoverageView>,
    pub batch: Option<CoverageView>,
    pub rank: u32,
}

pub open spec fn coverage_view(c: Option<LangCoverage>) -> Option<CoverageView> {
    match c {
        Some(x) => Some(x@),
        None => None,
    }
}

impl View for ModelCaps {
    type V = CapsView;

    open spec fn view(&self) -> CapsView {
        CapsView {
            live: coverage_view(self.live),
            batch: coverage_view(self.batch),
            rank: self.rank,
        }
    }
}

impl CapsView {
    /// The coverage in `mode`: streaming for "live", files for every other mode.
    pub open spec fn coverage(self, mode: Seq<char>) -> Option<CoverageView> {
        if mode == "live"@ {
            self.live
        } else {
            self.batch
        }
    }

    /// Whether the model works at all, and handles nothing but English in every mode it has.
    pub open spec fn english_only(self) -> bool {
        &&& self.live is Some || self.batch is Some
        &&& self.live is Some ==> self.live->0 is English
        &&& self.batch is Some ==> self.batch->0 is English
    }
}

impl ModelCaps {
    /// The coverage in `mode`.
    pub fn coverage(&self, mode: &str) -> (r: Option<LangCoverage>)
        ensures
            coverage_view(r) == self@.coverage(mode@),
    {
        if same(mode, "live") {
            self.live
        } else {
            self.batch
        }
    }
}

/// True if the model handles only English in every mode it supports.
pub fn is_english_only(caps: &ModelCaps) -> (r: bool)
    ensures
        r == caps@.english_only(),
{
    let live: bool = match caps.live {
        None => true,
        Some(LangCoverage::English) => true,
        _ => false,
    };
    let batch: bool = match caps.batch {
        None => true,
        Some(LangCoverage::English) => true,
        _ => false,
    };
    (caps.live.is_some() || caps.batch.is_some()) && live && batch
}

/// The set that AssemblyAI's streaming model switches among.
pub const AAI_EUR6: [&'static str; 6] = ["en", "es", "de", "fr", "pt", "it"];

/// The set of Deepgram's multilingual models.
pub const DG_MULTI10: [&'static str; 10] = [
    "en",
    "es",
    "fr",
    "de",
    "hi",
    "ru",
    "pt",
    "ja",
    "it",
    "nl",
];

/// What `model` of `provider` can do.
pub open spec fn caps_of(provider: Seq<char>, model: Seq<char>) -> CapsView {
    let dg = CoverageView::Among(text::strs(DG_MULTI10@));
    let all = CoverageView::All;
    if provider == "assemblyai"@ {
        CapsView {
            live: Some(CoverageView::Among(text::strs(AAI_EUR6@))),
            batch: Some(all),
            rank: 0,
        }
    } else if provider == "deepgram"@ {
        if model == "nova-3"@ || model == "nova-2"@ || model == "nova-2-general"@ {
            CapsView { live: Some(dg), batch: Some(dg), rank: 10 }
        } else {
            CapsView { live: None, batch: Some(dg), rank: 40 }
        }
    } else if provider == "fireworks"@ {
        if model == "fireworks-asr-large"@ {
            CapsView { live: Some(all), batch: Some(all), rank: 15 }
        } else {
            CapsView { live: None, batch: Some(all), rank: 30 }
        }
    } else if provider == "groq"@ {
        if model == "distil-whisper-large-v3-en"@ {
            CapsView { live: None, batch: Some(CoverageView::English), rank: 50 }
        } else {
            CapsView { live: None, batch: Some(all), rank: 25 }
        }
    } else {
        CapsView { live: Some(all), batch: Some(all), rank: 100 }
    }
}

/// What `model` of `provider` can do.
pub fn model_caps(provider: &str, model: &str) -> (r: ModelCaps)
    ensures
        r@ == caps_of(provider@, model@),
{
    let all: Option<LangCoverage> = Some(LangCoverage::All);
    if same(provider, "assemblyai") {
        // Streams six European languages; files are detected among all of them.
        ModelCaps { live: Some(LangCoverage::Among(&AAI_EUR6)), batch: all, rank: 0 }
    } else if same(provider, "deepgram") {
        let dg: Option<LangCoverage> = Some(LangCoverage::Among(&DG_MULTI10));
        if same(model, "nova-3") || same(model, "nova-2") || same(model, "nova-2-general") {
            ModelCaps { live: dg, batch: dg, rank: 10 }
        } else {
            // Deepgram-hosted Whisper takes files only.
            ModelCaps { live: None, batch: dg, rank: 40 }
        }
    } else if same(provider, "fireworks") {
        if same(model, "fireworks-asr-large") {
            ModelCaps { live: all, batch: all, rank: 15 }
        } else {
            ModelCaps { live: None, batch: all, rank: 30 }
        }
    } else if same(provider, "groq") {
        if same(model, "distil-whisper-large-v3-en") {
            ModelCaps { live: None, batch: Some(LangCoverage::English), rank: 50 }
        } else {
            ModelCaps { live: None, batch: all, rank: 25 }
        }
    } else {
        ModelCaps { live: all, batch: all, rank: 100 }
    }
}

/// The provider that a bare model name belongs to.
pub const DEFAULT_PROVIDER: &'static str = "deepgram";

/// The provider in a model id: what stands before the first slash.
pub open spec fn provider_of(id: Seq<char>) -> Seq<char> {
    let n = text::span(id, text::other_than('/')) as int;
    if n < id.len() {
        id.take(n)
    } else {
        DEFAULT_PROVIDER@
    }
}

/// The model name in a model id: what follows the first slash, or everything.
pub open spec fn model_of(id: Seq<char>) -> Seq<char> {
    let n = text::span(id, text::other_than('/')) as int;
    if n < id.len() {
        id.skip(n + 1)
    } else {
        id
    }
}

/// Split "provider/model" into (provider, model). A bare name is Deepgram's.
pub fn parse_provider_model(s: &str) -> (r: (&str, &str))
    ensures
        r.0@ == provider_of(s@),
        r.1@ == model_of(s@),
{
    match find_char(s, '/') {
        Some(i) => {
            let n: usize = s.unicode_len();
            let p: &str = s.substring_char(0, i);
            let m: &str = s.substring_char(i + 1, n);
            assert(p@ =~= s@.take(i as int));
            assert(m@ =~= s@.skip(i + 1));
            (p, m)
        },
        None => (DEFAULT_PROVIDER, s),
    }
}

/// A provider name without a slash and a model name written as an id are read back.
pub proof fn law_model_id_reads_back(provider: Seq<char>, model: Seq<char>)
    requires
        !provider.contains('/'),
    ensures
        provider_of(provider + "/"@ + model) == provider,
        model_of(provider + "/"@ + model) == model,
{
    reveal_strlit("/");
    let id = provider + "/"@ + model;
    let n = provider.len() as int;
    assert forall|i: int| 0 <= i < n implies #[trigger] text::other_than('/')(id[i]) by {
        assert(id[i] == provider[i]);
        assert(provider.contains(provider[i]));
    }
    text::lemma_span_is(id, text::other_than('/'), n);
    assert(id.take(n) =~= provider);
    assert(id.skip(n + 1) =~= model);
}

/// Every model that can be picked.
pub const ALL_MODELS: [&'static str; 7] = [
    "assemblyai/universal",
    "deepgram/nova-3",
    "deepgram/nova-2",
    "deepgram/nova-2-general",
    "groq/whisper-large-v3-turbo",
    "groq/whisper-large-v3",
    "fireworks/fireworks-asr-large",
];

/// The ids of every model that can be picked.
pub fn all_models() -> (r: Vec<String>)
    ensures
        text::views(r@) == text::strs(ALL_MODELS@),
{
    let mut r: Vec<String> = Vec::new();
    let mut i: usize = 0;
    while i < ALL_MODELS.len()
        invariant
            i <= ALL_MODELS@.len(),
            r@.len() == i,
            forall|j: int| 0 <= j < i ==> (#[trigger] r@[j])@ == ALL_MODELS@[j]@,
        decreases ALL_MODELS.len() - i,
    {
        r.push(ALL_MODELS[i].to_owned());
        i += 1;
    }
    assert(text::views(r@) =~= text::strs(ALL_MODELS@));
    r
}

pub const ASSEMBLYAI_MODELS: [&'static str; 1] = ["universal"];

pub const DEEPGRAM_MODELS: [&'static str; 3] = ["nova-3", "nova-2", "nova-2-general"];

pub const GROQ_MODELS: [&'static str; 2] = ["whisper-large-v3-turbo", "whisper-large-v3"];

pub const FIREWORKS_MODELS: [&'static str; 1] = ["fireworks-asr-large"];

pub const NO_MODELS: [&'static str; 0] = [];

/// The models of a provider.
pub open spec fn models_of(provider: Seq<char>) -> Seq<&'static str> {
    if provider == "assemblyai"@ {
        ASSEMBLYAI_MODELS@
    } else if provider == "deepgram"@ {
        DEEPGRAM_MODELS@
    } else if provider == "groq"@ {
        GROQ_MODELS@
    } else if provider == "fireworks"@ {
        FIREWORKS_MODELS@
    } else {
        Seq::empty()
    }
}

/// The models of a provider.
pub fn provider_models(provider: &str) -> (r: &'static [&'static str])
    ensures
        r@ == models_of(provider@),
{
    if same(provider, "assemblyai") {
        &ASSEMBLYAI_MODELS
    } else if same(provider, "deepgram") {
        &DEEPGRAM_MODELS
    } else if same(provider, "groq") {
        &GROQ_MODELS
    } else if same(provider, "fireworks") {
        &FIREWORKS_MODELS
    } else {
        let r: &'static [&'static str] = &NO_MODELS;
        assert(r@ =~= Seq::<&'static str>::empty());
        r
    }
}

/// Whether the model `id` handles `mode` with all the required languages.
pub open spec fn compatible(id: Seq<char>, mode: Seq<char>, required: Seq<Seq<char>>) -> bool {
    match caps_of(provider_of(id), model_of(id)).coverage(mode) {
        Some(c) => c.covers(required),
        None => false,
    }
}

/// The order of preference among fallbacks for `current`: first the models of its provider, then
/// by rank. Lower is preferred.
pub open spec fn preference(id: Seq<char>, current: Seq<char>) -> (int, int) {
    (
        if provider_of(id) == provider_of(current) { 0 } else { 1 },
        caps_of(provider_of(id), model_of(id)).rank as int,
    )
}

pub open spec fn before(a: (int, int), b: (int, int)) -> bool {
    a.0 < b.0 || (a.0 == b.0 && a.1 < b.1)
}

/// Whether entry `i` of the catalogue is the fallback for `current`: it does the job, no entry
/// that does is preferred to it, and no earlier one is as good.
pub open spec fn best_fallback(
    i: int,
    current: Seq<char>,
    mode: Seq<char>,
    required: Seq<Seq<char>>,
) -> bool {
    &&& 0 <= i < ALL_MODELS@.len()
    &&& compatible(ALL_MODELS@[i]@, mode, required)
    &&& forall|j: int|
        0 <= j < ALL_MODELS@.len() && compatible((#[trigger] ALL_MODELS@[j])@, mode, required) ==> {
            &&& !before(
                preference(ALL_MODELS@[j]@, current),
                preference(ALL_MODELS@[i]@, current),
            )
            &&& j < i ==> before(
                preference(ALL_MODELS@[i]@, current),
                preference(ALL_MODELS@[j]@, current),
            )
        }
}

/// The model to use in place of `current` for `mode` and the required languages.
pub open spec fn fallback(current: Seq<char>, mode: Seq<char>, required: Seq<Seq<char>>) -> Option<
    Seq<char>,
> {
    if compatible(current, mode, required) {
        None
    } else {
        Some(ALL_MODELS@[choose|i: int| best_fallback(i, current, mode, required)]@)
    }
}

fn is_compatible(id: &str, mode: &str, required: &[&str]) -> (r: bool)
    ensures
        r == compatible(id@, mode@, text::strs(required@)),
{
    let (p, m) = parse_provider_model(id);
    match model_caps(p, m).coverage(mode) {
        Some(c) => c.covers(required),
        None => false,
    }
}

fn preference_key(id: &str, cur_provider: &str) -> (r: (u32, u32))
    ensures
        forall|current: Seq<char>|
            provider_of(current) == cur_provider@ ==> #[trigger] preference(id@, current) == (
                r.0 as int,
                r.1 as int,
            ),
{
    let (p, m) = parse_provider_model(id);
    let other: u32 = if same(p, cur_provider) {
        0
    } else {
        1
    };
    (other, model_caps(p, m).rank)
}

/// The last entry of the catalogue does every mode and every language.
proof fn lemma_universal(mode: Seq<char>, required: Seq<Seq<char>>)
    ensures
        compatible(ALL_MODELS@[6]@, mode, required),
{
    reveal_strlit("fireworks/fireworks-asr-large");
    reveal_strlit("fireworks");
    reveal_strlit("fireworks-asr-large");
    reveal_strlit("assemblyai");
    reveal_strlit("deepgram");
    let p = "fireworks"@;
    let m = "fireworks-asr-large"@;
    reveal_strlit("/");
    assert(ALL_MODELS@[6]@ =~= p + "/"@ + m);
    assert(p.len() == 9 && "assemblyai"@.len() == 10 && "deepgram"@.len() == 8);
    assert forall|i: int| 0 <= i < p.len() implies p[i] != '/' by {}
    law_model_id_reads_back(p, m);
}

/// Smart fallback: if `current` can't satisfy the mode and the required languages, the best
/// compatible model id, preferring the same provider, then overall rank. `None` means that the
/// current pick is fine. `required` is the preferred-language set (for detection) or the single
/// chosen language.
pub fn resolve_model(current: &str, mode: &str, required: &[&str]) -> (r: Option<String>)
    ensures
        r is None <==> compatible(current@, mode@, text::strs(required@)),
        match r {
            Some(s) => exists|i: int|
                #[trigger] best_fallback(i, current@, mode@, text::strs(required@)) && s@
                    == ALL_MODELS@[i]@,
            None => true,
        },
        match r {
            Some(s) => fallback(current@, mode@, text::strs(required@)) == Some(s@),
            None => fallback(current@, mode@, text::strs(required@)) is None,
        },
{
    if is_compatible(current, mode, required) {
        return None;
    }
    let ghost req = text::strs(required@);
    let (cur_provider, _) = parse_provider_model(current);
    let mut best: Option<usize> = None;
    let mut best_key: (u32, u32) = (0, 0);
    let mut i: usize = 0;
    while i < ALL_MODELS.len()
        invariant
            i <= ALL_MODELS@.len(),
            req == text::strs(required@),
            cur_provider@ == provider_of(current@),
            match best {
                None => forall|j: int|
                    0 <= j < i ==> !compatible((#[trigger] ALL_MODELS@[j])@, mode@, req),
                Some(b) => {
                    &&& b < i
                    &&& compatible(ALL_MODELS@[b as int]@, mode@, req)
                    &&& preference(ALL_MODELS@[b as int]@, current@) == (
                        best_key.0 as int,
                        best_key.1 as int,
                    )
                    &&& forall|j: int|
                        0 <= j < i && compatible((#[trigger] ALL_MODELS@[j])@, mode@, req) ==> {
                            &&& !before(
                                preference(ALL_MODELS@[j]@, current@),
                                preference(ALL_MODELS@[b as int]@, current@),
                            )
                            &&& j < b ==> before(
                                preference(ALL_MODELS@[b as int]@, current@),
                                preference(ALL_MODELS@[j]@, current@),
                            )
                        }
                },
            },
        decreases ALL_MODELS.len() - i,
    {
        let id: &'static str = ALL_MODELS[i];
        if is_compatible(id, mode, required) {
            let key: (u32, u32) = preference_key(id, cur_provider);
            assert(preference(id@, current@) == (key.0 as int, key.1 as int));
            let take: bool = match best {
                None => true,
                Some(_) => key.0 < best_key.0 || (key.0 == best_key.0 && key.1 < best_key.1),
            };
            if take {
                best = Some(i);
                best_key = key;
            }
        }
        i += 1;
    }
    proof {
        lemma_universal(mode@, req);
        assert(best is Some);
        lemma_fallback_unique(best->0 as int, current@, mode@, req);
    }
    match best {
        Some(b) => {
            let s: String = ALL_MODELS[b].to_owned();
            assert(best_fallback(b as int, current@, mode@, req) && s@ == ALL_MODELS@[b as int]@);
            Some(s)
        },
        None => None,
    }
}

proof fn lemma_fallback_unique(
    i: int,
    current: Seq<char>,
    mode: Seq<char>,
    required: Seq<Seq<char>>,
)
    requires
        best_fallback(i, current, mode, required),
    ensures
        (choose|k: int| best_fallback(k, current, mode, required)) == i,
{
    let k = choose|k: int| best_fallback(k, current, mode, required);
    assert(best_fallback(k, current, mode, required));
    assert(compatible(ALL_MODELS@[k]@, mode, required));
    assert(compatible(ALL_MODELS@[i]@, mode, required));
}

/// Whatever is asked for, some model of the catalogue does it, and exactly one is the fallback.
proof fn lemma_fallback_exists(current: Seq<char>, mode: Seq<char>, required: Seq<Seq<char>>)
    ensures
        exists|i: int| best_fallback(i, current, mode, required),
{
    lemma_universal(mode, required);
    lemma_best_upto(ALL_MODELS@.len() as int, current, mode, required);
    let i = choose|i: int| best_upto(i, ALL_MODELS@.len() as int, current, mode, required);
    assert(best_fallback(i, current, mode, required));
}

spec fn best_upto(
    i: int,
    n: int,
    current: Seq<char>,
    mode: Seq<char>,
    required: Seq<Seq<char>>,
) -> bool {
    &&& 0 <= i < n
    &&& compatible(ALL_MODELS@[i]@, mode, required)
    &&& forall|j: int|
        0 <= j < n && compatible((#[trigger] ALL_MODELS@[j])@, mode, required) ==> {
            &&& !before(
                preference(ALL_MODELS@[j]@, current),
                preference(ALL_MODELS@[i]@, current),
            )
            &&& j < i ==> before(
                preference(ALL_MODELS@[i]@, current),
                preference(ALL_MODELS@[j]@, current),
            )
        }
}

proof fn lemma_best_upto(
    n: int,
    current: Seq<char>,
    mode: Seq<char>,
    required: Seq<Seq<char>>,
)
    requires
        0 <= n <= ALL_MODELS@.len(),
    ensures
        (exists|i: int| best_upto(i, n, current, mode, required)) || (forall|j: int|
            0 <= j < n ==> !compatible((#[trigger] ALL_MODELS@[j])@, mode, required)),
    decreases n,
{
    if n > 0 {
        let m = n - 1;
        lemma_best_upto(m, current, mode, required);
        if compatible(ALL_MODELS@[m]@, mode, required) {
            if exists|i: int| best_upto(i, m, current, mode, required) {
                let b = choose|i: int| best_upto(i, m, current, mode, required);
                if before(
                    preference(ALL_MODELS@[m]@, current),
                    preference(ALL_MODELS@[b]@, current),
                ) {
                    assert(best_upto(m, n, current, mode, required));
                } else {
                    assert(best_upto(b, n, current, mode, required));
                }
            } else {
                assert(best_upto(m, n, current, mode, required));
            }
        } else {
            if exists|i: int| best_upto(i, m, current, mode, required) {
                let b = choose|i: int| best_upto(i, m, current, mode, required);
                assert(best_upto(b, n, current, mode, required));
            }
        }
    }
}

/// The fallback always does what was asked for, so it needs no fallback of its own.
pub proof fn law_fallback_is_compatible(
    current: Seq<char>,
    mode: Seq<char>,
    required: Seq<Seq<char>>,
)
    ensures
        match fallback(current, mode, required) {
            Some(id) => compatible(id, mode, required) && fallback(id, mode, required) is None,
            None => compatible(current, mode, required),
        },
{
    lemma_fallback_exists(current, mode, required);
}

/// A fallback stays with the provider of the pick whenever one of its models does the job.
pub proof fn law_fallback_keeps_provider(
    current: Seq<char>,
    mode: Seq<char>,
    required: Seq<Seq<char>>,
    k: int,
)
    requires
        !compatible(current, mode, required),
        0 <= k < ALL_MODELS@.len(),
        compatible(ALL_MODELS@[k]@, mode, required),
        provider_of(ALL_MODELS@[k]@) == provider_of(current),
    ensures
        provider_of(fallback(current, mode, required)->0) == provider_of(current),
{
    lemma_fallback_exists(current, mode, required);
    let i = choose|i: int| best_fallback(i, current, mode, required);
    assert(best_fallback(i, current, mode, required));
    assert(!before(preference(ALL_MODELS@[k]@, current), preference(ALL_MODELS@[i]@, current)));
}

/// Among the models that do the job and do not differ in whether they are of the picked model's
/// provider, the fallback has the least rank.
pub proof fn law_fallback_has_the_least_rank(
    current: Seq<char>,
    mode: Seq<char>,
    required: Seq<Seq<char>>,
    k: int,
)
    requires
        !compatible(current, mode, required),
        0 <= k < ALL_MODELS@.len(),
        compatible(ALL_MODELS@[k]@, mode, required),
    ensures
        ({
            let f = fallback(current, mode, required)->0;
            let other = ALL_MODELS@[k]@;
            (provider_of(other) == provider_of(current)) == (provider_of(f) == provider_of(current))
                ==> caps_of(provider_of(f), model_of(f)).rank <= caps_of(
                provider_of(other),
                model_of(other),
            ).rank
        }),
{
    lemma_fallback_exists(current, mode, required);
    let i = choose|i: int| best_fallback(i, current, mode, required);
    assert(best_fallback(i, current, mode, required));
    assert(!before(preference(ALL_MODELS@[k]@, current), preference(ALL_MODELS@[i]@, current)));
}

/// The fallback is an entry of the catalogue, and of two that are equally good the earlier one.
pub proof fn law_fallback_is_the_first_of_its_kind(
    current: Seq<char>,
    mode: Seq<char>,
    required: Seq<Seq<char>>,
)
    requires
        !compatible(current, mode, required),
    ensures
        exists|i: int|
            {
                &&& 0 <= i < ALL_MODELS@.len()
                &&& fallback(current, mode, required) == Some((#[trigger] ALL_MODELS@[i])@)
                &&& forall|j: int|
                    0 <= j < i && compatible((#[trigger] ALL_MODELS@[j])@, mode, required)
                        && provider_of(ALL_MODELS@[j]@) == provider_of(ALL_MODELS@[i]@)
                        ==> caps_of(
                        provider_of(ALL_MODELS@[j]@),
                        model_of(ALL_MODELS@[j]@),
                    ).rank > caps_of(provider_of(ALL_MODELS@[i]@), model_of(ALL_MODELS@[i]@)).rank
            },
{
    lemma_fallback_exists(current, mode, required);
    let i = choose|i: int| best_fallback(i, current, mode, required);
    assert(best_fallback(i, current, mode, required));
    assert(fallback(current, mode, required) == Some(ALL_MODELS@[i]@));
    assert forall|j: int|
        0 <= j < i && compatible((#[trigger] ALL_MODELS@[j])@, mode, required) && provider_of(
            ALL_MODELS@[j]@,
        ) == provider_of(ALL_MODELS@[i]@) implies caps_of(
        provider_of(ALL_MODELS@[j]@),
        model_of(ALL_MODELS@[j]@),
    ).rank > caps_of(provider_of(ALL_MODELS@[i]@), model_of(ALL_MODELS@[i]@)).rank by {
        assert(before(preference(ALL_MODELS@[i]@, current), preference(ALL_MODELS@[j]@, current)));
    }
}

/// A model does a job exactly where it has the mode at all and every required language is one that
/// it takes there: recordings that are not live are files. So a model that does a job does every
/// part of it.
pub proof fn law_compatible_is_language_by_language(
    id: Seq<char>,
    mode: Seq<char>,
    a: Seq<Seq<char>>,
    b: Seq<Seq<char>>,
)
    ensures
        compatible(id, mode, a + b) == (compatible(id, mode, a) && compatible(id, mode, b)),
        compatible(id, mode, Seq::empty()) == (if mode == "live"@ {
            caps_of(provider_of(id), model_of(id)).live is Some
        } else {
            caps_of(provider_of(id), model_of(id)).batch is Some
        }),
        a.len() == 1 && compatible(id, mode, Seq::empty()) ==> compatible(id, mode, a) == (
        if mode == "live"@ {
            caps_of(provider_of(id), model_of(id)).live->0.handles(a[0])
        } else {
            caps_of(provider_of(id), model_of(id)).batch->0.handles(a[0])
        }),
{
    let all = a + b;
    match caps_of(provider_of(id), model_of(id)).coverage(mode) {
        Some(c) => {
            if c.covers(a) && c.covers(b) {
                assert forall|i: int| 0 <= i < all.len() implies c.handles(#[trigger] all[i]) by {
                    if i < a.len() {
                        assert(all[i] == a[i]);
                    } else {
                        assert(all[i] == b[i - a.len()]);
                    }
                }
            }
            if c.covers(all) {
                assert forall|i: int| 0 <= i < a.len() implies c.handles(#[trigger] a[i]) by {
                    assert(all[i] == a[i]);
                }
                assert forall|i: int| 0 <= i < b.len() implies c.handles(#[trigger] b[i]) by {
                    assert(all[a.len() + i] == b[i]);
                }
            }
        },
        None => {},
    }
}

/// What coverage means: English alone, the languages that are listed, or every one; and each of
/// them takes detection.
pub proof fn law_coverage_is_what_it_says(l: Seq<char>, listed: Seq<Seq<char>>)
    ensures
        CoverageView::English.handles(l) <==> l == "en"@ || l == "auto"@,
        CoverageView::All.handles(l),
        CoverageView::Among(listed).handles(l) <==> listed.contains(l) || l == "auto"@,
{
}

/// What the providers can do with any of their models: AssemblyAI is preferred to all, streams six
/// languages and takes files of every one; Deepgram takes ten; Groq never streams, Fireworks does
/// so with its large model only; and a provider that is not known is preferred to none.
pub proof fn law_what_providers_can_do(p: Seq<char>, m: Seq<char>, l: Seq<char>)
    ensures
        caps_of("assemblyai"@, m).rank <= caps_of(p, m).rank <= 100,
        caps_of("assemblyai"@, m).live->0.handles(l) <==> l == "en"@ || l == "es"@ || l == "de"@
            || l == "fr"@ || l == "pt"@ || l == "it"@ || l == "auto"@,
        caps_of("assemblyai"@, m).live is Some && caps_of("assemblyai"@, m).batch is Some,
        caps_of("assemblyai"@, m).batch->0.handles(l),
        caps_of("deepgram"@, m).batch is Some,
        caps_of("deepgram"@, m).batch->0.handles(l) <==> l == "en"@ || l == "es"@ || l == "fr"@ || l
            == "de"@ || l == "hi"@ || l == "ru"@ || l == "pt"@ || l == "ja"@ || l == "it"@ || l
            == "nl"@ || l == "auto"@,
        caps_of("deepgram"@, m).live is Some ==> caps_of("deepgram"@, m).live == caps_of(
            "deepgram"@,
            m,
        ).batch && caps_of("deepgram"@, m).rank == 10,
        caps_of("groq"@, m).live is None && caps_of("groq"@, m).batch is Some,
        caps_of("groq"@, m).batch->0.handles(l) || m == "distil-whisper-large-v3-en"@,
        caps_of("groq"@, m).rank >= 25,
        caps_of("fireworks"@, m).live is Some <==> m == "fireworks-asr-large"@,
        caps_of("fireworks"@, m).live is Some ==> caps_of("fireworks"@, m).live->0.handles(l)
            && caps_of("fireworks"@, m).rank == 15,
        caps_of("fireworks"@, m).batch is Some && caps_of("fireworks"@, m).batch->0.handles(l),
        p != "assemblyai"@ && p != "deepgram"@ && p != "groq"@ && p != "fireworks"@ ==> caps_of(
            p,
            m,
        ).rank == 100,
{
    reveal_strlit("assemblyai");
    reveal_strlit("deepgram");
    reveal_strlit("fireworks");
    reveal_strlit("groq");
    assert("assemblyai"@.len() == 10 && "deepgram"@.len() == 8 && "fireworks"@.len() == 9
        && "groq"@.len() == 4);
    let eur = text::strs(AAI_EUR6@);
    assert(eur =~= seq!["en"@, "es"@, "de"@, "fr"@, "pt"@, "it"@]);
    assert(eur[0] == "en"@ && eur[1] == "es"@ && eur[2] == "de"@ && eur[3] == "fr"@ && eur[4]
        == "pt"@ && eur[5] == "it"@);
    let ten = text::strs(DG_MULTI10@);
    assert(ten =~= seq![
        "en"@,
        "es"@,
        "fr"@,
        "de"@,
        "hi"@,
        "ru"@,
        "pt"@,
        "ja"@,
        "it"@,
        "nl"@,
    ]);
    assert(ten[0] == "en"@ && ten[1] == "es"@ && ten[2] == "fr"@ && ten[3] == "de"@ && ten[4]
        == "hi"@ && ten[5] == "ru"@ && ten[6] == "pt"@ && ten[7] == "ja"@ && ten[8] == "it"@
        && ten[9] == "nl"@);
}

/// The languages that can be chosen, by code and name.
pub const LANGUAGES: [(&'static str, &'static str); 28] = [
    ("auto", "Auto-detect"),
    ("en", "English"),
    ("zh", "Chinese"),
    ("es", "Spanish"),
    ("hi", "Hindi"),
    ("pt", "Portuguese"),
    ("fr", "French"),
    ("de", "German"),
    ("ja", "Japanese"),
    ("ko", "Korean"),
    ("it", "Italian"),
    ("nl", "Dutch"),
    ("pl", "Polish"),
    ("ro", "Romanian"),
    ("ru", "Russian"),
    ("sv", "Swedish"),
    ("tr", "Turkish"),
    ("uk", "Ukrainian"),
    ("ar", "Arabic"),
    ("cs", "Czech"),
    ("da", "Danish"),
    ("el", "Greek"),
    ("fi", "Finnish"),
    ("hu", "Hungarian"),
    ("id", "Indonesian"),
    ("no", "Norwegian"),
    ("th", "Thai"),
    ("vi", "Vietnamese"),
];

/// Whether entry `i` is the first of the language table with this code.
pub open spec fn lang_entry(i: int, code: Seq<char>) -> bool {
    &&& 0 <= i < LANGUAGES@.len()
    &&& LANGUAGES@[i].0@ == code
    &&& forall|j: int| 0 <= j < i ==> (#[trigger] LANGUAGES@[j]).0@ != code
}

/// The name of the language with this code.
pub open spec fn name_of_lang(code: Seq<char>) -> Option<Seq<char>> {
    if exists|i: int| lang_entry(i, code) {
        Some(LANGUAGES@[choose|i: int| lang_entry(i, code)].1@)
    } else {
        None
    }
}

/// The name of the language with this code.
pub fn lang_name(code: &str) -> (r: Option<&'static str>)
    ensures
        match r {
            Some(name) => name_of_lang(code@) == Some(name@),
            None => name_of_lang(code@) is None,
        },
{
    let mut i: usize = 0;
    while i < LANGUAGES.len()
        invariant
            i <= LANGUAGES@.len(),
            forall|j: int| 0 <= j < i ==> (#[trigger] LANGUAGES@[j]).0@ != code@,
        decreases LANGUAGES.len() - i,
    {
        if same(LANGUAGES[i].0, code) {
            proof {
                assert(lang_entry(i as int, code@));
                let k = choose|k: int| lang_entry(k, code@);
                assert(lang_entry(k, code@));
                assert(k == i);
            }
            return Some(LANGUAGES[i].1);
        }
        i += 1;
    }
    assert forall|k: int| !lang_entry(k, code@) by {
        if 0 <= k < LANGUAGES@.len() {
            assert(LANGUAGES@[k].0@ != code@);
        }
    }
    None
}

proof fn lemma_entry(k: int, p: Seq<char>, m: Seq<char>)
    requires
        ALL_MODELS@[k]@ == p + "/"@ + m,
        !p.contains('/'),
    ensures
        provider_of(ALL_MODELS@[k]@) == p,
        model_of(ALL_MODELS@[k]@) == m,
{
    law_model_id_reads_back(p, m);
}

proof fn lemma_ids()
    ensures
        forall|k: int|
            0 <= k < ALL_MODELS@.len() ==> {
                &&& text::listed(PROVIDERS@, provider_of((#[trigger] ALL_MODELS@[k])@))
                &&& text::listed(
                    models_of(provider_of(ALL_MODELS@[k]@)),
                    model_of(ALL_MODELS@[k]@),
                )
            },
        text::listed(ALL_MODELS@, "assemblyai"@ + "/"@ + "universal"@),
        text::listed(ALL_MODELS@, "deepgram"@ + "/"@ + "nova-3"@),
        text::listed(ALL_MODELS@, "deepgram"@ + "/"@ + "nova-2"@),
        text::listed(ALL_MODELS@, "deepgram"@ + "/"@ + "nova-2-general"@),
        text::listed(ALL_MODELS@, "groq"@ + "/"@ + "whisper-large-v3-turbo"@),
        text::listed(ALL_MODELS@, "groq"@ + "/"@ + "whisper-large-v3"@),
        text::listed(ALL_MODELS@, "fireworks"@ + "/"@ + "fireworks-asr-large"@),
{
    reveal_strlit("/");
    reveal_strlit("assemblyai");
    reveal_strlit("deepgram");
    reveal_strlit("groq");
    reveal_strlit("fireworks");
    reveal_strlit("universal");
    reveal_strlit("nova-3");
    reveal_strlit("nova-2");
    reveal_strlit("nova-2-general");
    reveal_strlit("whisper-large-v3-turbo");
    reveal_strlit("whisper-large-v3");
    reveal_strlit("fireworks-asr-large");
    reveal_strlit("assemblyai/universal");
    reveal_strlit("deepgram/nova-3");
    reveal_strlit("deepgram/nova-2");
    reveal_strlit("deepgram/nova-2-general");
    reveal_strlit("groq/whisper-large-v3-turbo");
    reveal_strlit("groq/whisper-large-v3");
    reveal_strlit("fireworks/fireworks-asr-large");
    assert(ALL_MODELS@[0]@ =~= "assemblyai"@ + "/"@ + "universal"@);
    assert(ALL_MODELS@[1]@ =~= "deepgram"@ + "/"@ + "nova-3"@);
    assert(ALL_MODELS@[2]@ =~= "deepgram"@ + "/"@ + "nova-2"@);
    assert(ALL_MODELS@[3]@ =~= "deepgram"@ + "/"@ + "nova-2-general"@);
    assert(ALL_MODELS@[4]@ =~= "groq"@ + "/"@ + "whisper-large-v3-turbo"@);
    assert(ALL_MODELS@[5]@ =~= "groq"@ + "/"@ + "whisper-large-v3"@);
    assert(ALL_MODELS@[6]@ =~= "fireworks"@ + "/"@ + "fireworks-asr-large"@);
    lemma_entry(0, "assemblyai"@, "universal"@);
    lemma_entry(1, "deepgram"@, "nova-3"@);
    lemma_entry(2, "deepgram"@, "nova-2"@);
    lemma_entry(3, "deepgram"@, "nova-2-general"@);
    lemma_entry(4, "groq"@, "whisper-large-v3-turbo"@);
    lemma_entry(5, "groq"@, "whisper-large-v3"@);
    lemma_entry(6, "fireworks"@, "fireworks-asr-large"@);
    assert("assemblyai"@.len() == 10 && "deepgram"@.len() == 8 && "groq"@.len() == 4
        && "fireworks"@.len() == 9);
    assert(PROVIDERS@[0]@ == "assemblyai"@);
    assert(PROVIDERS@[1]@ == "deepgram"@);
    assert(PROVIDERS@[2]@ == "groq"@);
    assert(PROVIDERS@[3]@ == "fireworks"@);
    assert(ASSEMBLYAI_MODELS@[0]@ == "universal"@);
    assert(DEEPGRAM_MODELS@[0]@ == "nova-3"@);
    assert(DEEPGRAM_MODELS@[1]@ == "nova-2"@);
    assert(DEEPGRAM_MODELS@[2]@ == "nova-2-general"@);
    assert(GROQ_MODELS@[0]@ == "whisper-large-v3-turbo"@);
    assert(GROQ_MODELS@[1]@ == "whisper-large-v3"@);
    assert(FIREWORKS_MODELS@[0]@ == "fireworks-asr-large"@);
}

/// The catalogue and the providers' lists agree: every entry of the catalogue names a known
/// provider and one of its models, and every model of every provider is in the catalogue.
pub proof fn law_catalogue_agrees(k: int, p: int, m: int)
    requires
        0 <= k < ALL_MODELS@.len(),
        0 <= p < PROVIDERS@.len(),
        0 <= m < models_of(PROVIDERS@[p]@).len(),
    ensures
        text::listed(PROVIDERS@, provider_of(ALL_MODELS@[k]@)),
        text::listed(models_of(provider_of(ALL_MODELS@[k]@)), model_of(ALL_MODELS@[k]@)),
        text::listed(ALL_MODELS@, PROVIDERS@[p]@ + "/"@ + models_of(PROVIDERS@[p]@)[m]@),
{
    lemma_ids();
    assert(text::listed(PROVIDERS@, provider_of(ALL_MODELS@[k]@)));
    reveal_strlit("assemblyai");
    reveal_strlit("deepgram");
    reveal_strlit("groq");
    reveal_strlit("fireworks");
    assert("assemblyai"@.len() == 10 && "deepgram"@.len() == 8 && "groq"@.len() == 4
        && "fireworks"@.len() == 9);
}

/// The environment variable that holds the API key of a provider.
pub open spec fn key_var(provider: Seq<char>) -> Option<Seq<char>> {
    if provider == "assemblyai"@ {
        Some("ASSEMBLYAI_API_KEY"@)
    } else if provider == "deepgram"@ {
        Some("DEEPGRAM_API_KEY"@)
    } else if provider == "groq"@ {
        Some("GROQ_API_KEY"@)
    } else if provider == "fireworks"@ {
        Some("FIREWORKS_API_KEY"@)
    } else {
        None
    }
}

/// The environment variable that holds the API key of a provider; none for an unknown one.
pub fn api_key_var(provider: &str) -> (r: Option<&'static str>)
    ensures
        match r {
            Some(v) => key_var(provider@) == Some(v@),
            None => key_var(provider@) is None,
        },
{
    if same(provider, "assemblyai") {
        Some("ASSEMBLYAI_API_KEY")
    } else if same(provider, "deepgram") {
        Some("DEEPGRAM_API_KEY")
    } else if same(provider, "groq") {
        Some("GROQ_API_KEY")
    } else if same(provider, "fireworks") {
        Some("FIREWORKS_API_KEY")
    } else {
        None
    }
}

/// The API key of `provider`, given what its environment variable holds. The error is the
/// message to show.
pub fn get_api_key(provider: &str, value: Option<String>) -> (r: Result<String, String>)
    ensures
        match (key_var(provider@), value) {
            (None, _) => r matches Err(e) && e@ == "unknown provider: "@ + provider@,
            (Some(_), Some(k)) => r matches Ok(x) && x@ == k@,
            (Some(v), None) => r matches Err(e) && e@ == v + " not set"@,
        },
{
    match api_key_var(provider) {
        None => Err("unknown provider: ".to_owned().concat(provider)),
        Some(v) => match value {
            Some(k) => Ok(k),
            None => Err(v.to_owned().concat(" not set")),
        },
    }
}

/// Where the daemon keeps its files.
pub struct Config {
    pub config_file: String,
    pub state_file: String,
    pub transcript_file: String,
    pub audio_file: String,
    pub history_file: String,
    pub audio_dir: String,
    pub socket_path: String,
    /// Managed read-only defaults, layered over the configuration file.
    pub defaults_file: String,
}

/// The path of `name` in the directory `dir`.
pub open spec fn path_in(dir: Seq<char>, name: Seq<char>) -> Seq<char> {
    if dir.len() == 0 || text::ends_in(dir, '/') {
        dir + name
    } else {
        dir + "/"@ + name
    }
}

fn join_path(dir: &str, name: &str) -> (r: String)
    ensures
        r@ == path_in(dir@, name@),
{
    if dir.is_empty() || text::ends_with(dir, '/') {
        dir.to_owned().concat(name)
    } else {
        dir.to_owned().concat("/").concat(name)
    }
}

/// The directory of the daemon below a base directory.
pub open spec fn app_dir(base: Seq<char>) -> Seq<char> {
    path_in(base, "dictate-desktop"@)
}

impl Config {
    /// The files of the daemon below the runtime directory and the user's configuration and
    /// state directories.
    pub fn new(runtime_dir: &str, config_home: &str, state_home: &str) -> (r: Config)
        ensures
            r.config_file@ == path_in(app_dir(config_home@), "config.toml"@),
            r.state_file@ == path_in(runtime_dir@, "dictate-desktop.state"@),
            r.transcript_file@ == path_in(runtime_dir@, "dictate-desktop.transcript"@),
            r.audio_file@ == path_in(runtime_dir@, "dictate-desktop.wav"@),
            r.history_file@ == path_in(app_dir(state_home@), "history.log"@),
            r.audio_dir@ == path_in(app_dir(state_home@), "audio"@),
            r.socket_path@ == path_in(runtime_dir@, "dictate-desktop.sock"@),
            r.defaults_file@ == path_in(app_dir(config_home@), "defaults.toml"@),
    {
        let config_dir: String = join_path(config_home, "dictate-desktop");
        let state_dir: String = join_path(state_home, "dictate-desktop");
        Config {
            config_file: join_path(config_dir.as_str(), "config.toml"),
            state_file: join_path(runtime_dir, "dictate-desktop.state"),
            transcript_file: join_path(runtime_dir, "dictate-desktop.transcript"),
            audio_file: join_path(runtime_dir, "dictate-desktop.wav"),
            history_file: join_path(state_dir.as_str(), "history.log"),
            audio_dir: join_path(state_dir.as_str(), "audio"),
            socket_path: join_path(runtime_dir, "dictate-desktop.sock"),
            defaults_file: join_path(config_dir.as_str(), "defaults.toml"),
        }
    }
}

/// A model without a provider is one of Deepgram's. With one, the id is the provider, a slash and
/// the model, and the first slash is the one that counts.
pub proof fn law_model_alone_is_deepgrams(id: Seq<char>)
    ensures
        !id.contains('/') ==> provider_of(id) == "deepgram"@ && model_of(id) == id,
        id.contains('/') ==> provider_of(id) + seq!['/'] + model_of(id) == id && !provider_of(
            id,
        ).contains('/'),
{
    let p = text::other_than('/');
    let n = text::span(id, p) as int;
    text::lemma_span(id, p);
    if n < id.len() {
        assert(!p(id[n]));
        assert(id.contains('/'));
        assert(id.take(n) + seq!['/'] + id.skip(n + 1) =~= id);
        assert forall|i: int| 0 <= i < n implies id.take(n)[i] != '/' by {
            assert(p(id[i]));
        }
    } else {
        assert forall|i: int| 0 <= i < id.len() implies id[i] != '/' by {
            assert(p(id[i]));
        }
    }
}

/// Where a model cannot do what is asked, its provider's models come in this order, and so do the
/// providers': the lower its rank, the sooner a model stands in.
pub proof fn law_order_of_preference(m: Seq<char>)
    ensures
        caps_of("assemblyai"@, m).rank == 0,
        caps_of("deepgram"@, m).live is Some <==> m == "nova-3"@ || m == "nova-2"@ || m
            == "nova-2-general"@,
        caps_of("deepgram"@, m).live is None ==> caps_of("deepgram"@, m).rank == 40,
        caps_of("fireworks"@, m).live is None ==> caps_of("fireworks"@, m).rank == 30,
        caps_of("groq"@, m).rank == (if m == "distil-whisper-large-v3-en"@ {
            50u32
        } else {
            25u32
        }),
        caps_of("groq"@, m).english_only() <==> m == "distil-whisper-large-v3-en"@,
        !caps_of("assemblyai"@, m).english_only(),
        !caps_of("deepgram"@, m).english_only(),
        !caps_of("fireworks"@, m).english_only(),
{
    reveal_strlit("assemblyai");
    reveal_strlit("deepgram");
    reveal_strlit("fireworks");
    reveal_strlit("groq");
    assert("assemblyai"@.len() == 10 && "deepgram"@.len() == 8 && "fireworks"@.len() == 9
        && "groq"@.len() == 4);
}

/// A model is for English only where all that it can do is in English.
pub proof fn law_english_only_is_nothing_but_english(caps: CapsView, mode: Seq<char>)
    requires
        caps.english_only(),
    ensures
        caps.coverage(mode) is Some ==> caps.coverage(mode)->0 == CoverageView::English,
        caps.live is Some || caps.batch is Some,
{
}

/// These are the providers, and these their models.
pub proof fn law_models_on_offer(p: Seq<char>, m: Seq<char>)
    ensures
        text::listed(PROVIDERS@, p) <==> p == "assemblyai"@ || p == "deepgram"@ || p == "groq"@ || p
            == "fireworks"@,
        text::listed(models_of("assemblyai"@), m) <==> m == "universal"@,
        text::listed(models_of("deepgram"@), m) <==> m == "nova-3"@ || m == "nova-2"@ || m
            == "nova-2-general"@,
        text::listed(models_of("groq"@), m) <==> m == "whisper-large-v3-turbo"@ || m
            == "whisper-large-v3"@,
        text::listed(models_of("fireworks"@), m) <==> m == "fireworks-asr-large"@,
        !text::listed(PROVIDERS@, p) ==> models_of(p).len() == 0,
{
    reveal_strlit("assemblyai");
    reveal_strlit("deepgram");
    reveal_strlit("fireworks");
    reveal_strlit("groq");
    assert("assemblyai"@.len() == 10 && "deepgram"@.len() == 8 && "fireworks"@.len() == 9
        && "groq"@.len() == 4);
    assert(PROVIDERS@[0]@ == "assemblyai"@ && PROVIDERS@[1]@ == "deepgram"@ && PROVIDERS@[2]@
        == "groq"@ && PROVIDERS@[3]@ == "fireworks"@);
    assert(ASSEMBLYAI_MODELS@[0]@ == "universal"@);
    assert(DEEPGRAM_MODELS@[0]@ == "nova-3"@ && DEEPGRAM_MODELS@[1]@ == "nova-2"@
        && DEEPGRAM_MODELS@[2]@ == "nova-2-general"@);
    assert(GROQ_MODELS@[0]@ == "whisper-large-v3-turbo"@ && GROQ_MODELS@[1]@
        == "whisper-large-v3"@);
    assert(FIREWORKS_MODELS@[0]@ == "fireworks-asr-large"@);
}

/// A language that is on the list has the name that stands beside its code, and one that is not has
/// none.
pub proof fn law_languages_have_their_names(code: Seq<char>, i: int)
    ensures
        name_of_lang(code) is Some <==> exists|j: int|
            0 <= j < LANGUAGES@.len() && (#[trigger] LANGUAGES@[j]).0@ == code,
        0 <= i < LANGUAGES@.len() && LANGUAGES@[i].0@ == code && (forall|j: int|
            0 <= j < i ==> (#[trigger] LANGUAGES@[j]).0@ != code) ==> name_of_lang(code) == Some(
            LANGUAGES@[i].1@,
        ),
{
    if 0 <= i < LANGUAGES@.len() && LANGUAGES@[i].0@ == code && (forall|j: int|
        0 <= j < i ==> (#[trigger] LANGUAGES@[j]).0@ != code) {
        assert(lang_entry(i, code));
        let k = choose|k: int| lang_entry(k, code);
        assert(lang_entry(k, code));
        assert(k == i);
    }
    if exists|j: int| 0 <= j < LANGUAGES@.len() && (#[trigger] LANGUAGES@[j]).0@ == code {
        let j = choose|j: int| 0 <= j < LANGUAGES@.len() && (#[trigger] LANGUAGES@[j]).0@ == code;
        lemma_first_entry(code, j);
    }
}

proof fn lemma_first_entry(code: Seq<char>, j: int)
    requires
        0 <= j < LANGUAGES@.len(),
        LANGUAGES@[j].0@ == code,
    ensures
        exists|i: int| lang_entry(i, code),
    decreases j,
{
    if exists|k: int| 0 <= k < j && (#[trigger] LANGUAGES@[k]).0@ == code {
        let k = choose|k: int| 0 <= k < j && (#[trigger] LANGUAGES@[k]).0@ == code;
        lemma_first_entry(code, k);
    } else {
        assert(lang_entry(j, code));
    }
}

/// Each provider's key is in a variable of its own, and nothing else has one.
pub proof fn law_each_provider_has_its_key(p: Seq<char>)
    ensures
        p == "assemblyai"@ ==> key_var(p) == Some("ASSEMBLYAI_API_KEY"@),
        p == "deepgram"@ ==> key_var(p) == Some("DEEPGRAM_API_KEY"@),
        p == "groq"@ ==> key_var(p) == Some("GROQ_API_KEY"@),
        p == "fireworks"@ ==> key_var(p) == Some("FIREWORKS_API_KEY"@),
        key_var(p) is Some <==> text::listed(PROVIDERS@, p),
{
    reveal_strlit("assemblyai");
    reveal_strlit("deepgram");
    reveal_strlit("fireworks");
    reveal_strlit("groq");
    assert("assemblyai"@.len() == 10 && "deepgram"@.len() == 8 && "fireworks"@.len() == 9
        && "groq"@.len() == 4);
    law_models_on_offer(p, p);
}

/// A path is the directory and the name, with one slash between them.
pub proof fn law_one_slash_stands_between(dir: Seq<char>, name: Seq<char>)
    ensures
        path_in(dir.push('/'), name) == dir + seq!['/'] + name,
        dir.len() > 0 && dir.last() != '/' ==> path_in(dir, name) == dir + seq!['/'] + name,
        path_in(Seq::empty(), name) == name,
        app_dir(dir) == path_in(dir, "dictate-desktop"@),
{
    reveal_strlit("/");
    assert("/"@ =~= seq!['/']);
    assert(dir.push('/') =~= dir + seq!['/']);
    assert(Seq::<char>::empty() + name =~= name);
}

} // verus!
