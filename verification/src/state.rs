//! The user's settings: their defaults, how they are read from the two configuration layers, and
//! how the overlay follows them.

use crate::config::AUTO_LANG;
use crate::text;
use crate::text::{same, split_on, trim};
use vstd::prelude::*;

verus! {

/// How much of the overlay is shown.
#[derive(Clone, Copy, PartialEq, Eq, Structural)]
pub enum OverlayMode {
    /// No overlay.
    Off,
    /// Status circles only, no text panel.
    Status,
    /// Circles that give way to the live transcript panel.
    Full,
}

/// The name of an overlay mode.
pub open spec fn overlay_name(m: OverlayMode) -> Seq<char> {
    match m {
        OverlayMode::Off => "off"@,
        OverlayMode::Status => "status"@,
        OverlayMode::Full => "full"@,
    }
}

/// The overlay mode of that name.
pub open spec fn overlay_named(s: Seq<char>) -> Option<OverlayMode> {
    if s == "off"@ {
        Some(OverlayMode::Off)
    } else if s == "status"@ {
        Some(OverlayMode::Status)
    } else if s == "full"@ {
        Some(OverlayMode::Full)
    } else {
        None
    }
}

impl OverlayMode {
    /// The name of this mode.
    pub fn name(self) -> (r: &'static str)
        ensures
            r@ == overlay_name(self),
    {
        match self {
            OverlayMode::Off => "off",
            OverlayMode::Status => "status",
            OverlayMode::Full => "full",
        }
    }

    /// The mode of that name.
    pub fn from_name(s: &str) -> (r: Option<OverlayMode>)
        ensures
            r == overlay_named(s@),
    {
        if same(s, "off") {
            Some(OverlayMode::Off)
        } else if same(s, "status") {
            Some(OverlayMode::Status)
        } else if same(s, "full") {
            Some(OverlayMode::Full)
        } else {
            None
        }
    }
}

/// Reading the name of an overlay mode gives the mode back.
pub proof fn law_overlay_name_reads_back(m: OverlayMode)
    ensures
        overlay_named(overlay_name(m)) == Some(m),
{
    reveal_strlit("off");
    reveal_strlit("status");
    reveal_strlit("full");
    assert("off"@.len() == 3 && "status"@.len() == 6 && "full"@.len() == 4);
}

// ---------------------------------------------------------------------------------------------
// Defaults

/// What an environment variable holds, else a fixed default.
pub open spec fn env_or(env: Option<Seq<char>>, default: Seq<char>) -> Seq<char> {
    match env {
        Some(s) => s,
        None => default,
    }
}

/// The characters of an optional string.
pub open spec fn opt_view(s: Option<String>) -> Option<Seq<char>> {
    match s {
        Some(x) => Some(x@),
        None => None,
    }
}

fn or_default(env: Option<String>, default: &str) -> (r: String)
    ensures
        r@ == env_or(opt_view(env), default@),
{
    match env {
        Some(s) => s,
        None => default.to_owned(),
    }
}

/// The default language, given what `DICTATE_LANG` holds.
pub fn default_lang(env: Option<String>) -> (r: String)
    ensures
        r@ == env_or(opt_view(env), "auto"@),
{
    or_default(env, AUTO_LANG)
}

/// The default model, given what `DICTATE_MODEL` holds.
pub fn default_model(env: Option<String>) -> (r: String)
    ensures
        r@ == env_or(opt_view(env), "groq/whisper-large-v3-turbo"@),
{
    or_default(env, "groq/whisper-large-v3-turbo")
}

/// The default transcription mode.
pub fn default_mode() -> (r: String)
    ensures
        r@ == "live"@,
{
    "live".to_owned()
}

/// The default delivery, given what `DICTATE_DELIVERY` holds.
pub fn default_delivery(env: Option<String>) -> (r: String)
    ensures
        r@ == env_or(opt_view(env), "auto"@),
{
    or_default(env, "auto")
}

/// Settings that are on by default.
pub fn default_true() -> (r: bool)
    ensures
        r,
{
    true
}

/// How long corrected text stays visible, by default.
pub fn default_correct_hold_ms() -> (r: u64)
    ensures
        r == 3000,
{
    3000
}

/// The default font, given what `DICTATE_FONT` holds.
pub fn default_font(env: Option<String>) -> (r: String)
    ensures
        r@ == env_or(opt_view(env), "Inter"@),
{
    or_default(env, "Inter")
}

/// The entries of a list of strings after trimming, without those that are blank.
pub open spec fn entries(pieces: Seq<Seq<char>>) -> Seq<Seq<char>>
    decreases pieces.len(),
{
    if pieces.len() == 0 {
        Seq::empty()
    } else {
        let t = text::trimmed(pieces.last());
        if t.len() == 0 {
            entries(pieces.drop_last())
        } else {
            entries(pieces.drop_last()).push(t)
        }
    }
}

/// The trimmed entries of `pieces[from..]`, without those that are blank.
pub fn trimmed_entries(pieces: &[String], from: usize) -> (r: Vec<String>)
    requires
        from <= pieces@.len(),
    ensures
        text::views(r@) == entries(text::views(pieces@).skip(from as int)),
{
    let ghost all = text::views(pieces@).skip(from as int);
    let mut r: Vec<String> = Vec::new();
    let mut i: usize = from;
    assert(all.take(0) =~= Seq::<Seq<char>>::empty());
    assert(text::views(r@) =~= Seq::<Seq<char>>::empty());
    while i < pieces.len()
        invariant
            from <= i <= pieces@.len(),
            all == text::views(pieces@).skip(from as int),
            text::views(r@) == entries(all.take(i - from)),
        decreases pieces.len() - i,
    {
        let t: String = trim(pieces[i].as_str());
        let ghost next = all.take(i - from + 1);
        assert(next.drop_last() =~= all.take(i - from));
        assert(next.last() == pieces@[i as int]@);
        if !t.as_str().is_empty() {
            let ghost before = r@;
            r.push(t);
            assert(text::views(r@) =~= text::views(before).push(t@));
        }
        i += 1;
    }
    assert(all.take(i - from) =~= all);
    r
}

/// The languages named by a comma-separated list.
pub open spec fn listed_langs(s: Seq<char>) -> Seq<Seq<char>> {
    entries(text::split(s, ','))
}

/// The languages named by a comma-separated list.
pub fn parse_langs(s: &str) -> (r: Vec<String>)
    ensures
        text::views(r@) == listed_langs(s@),
{
    let pieces: Vec<String> = split_on(s, ',');
    assert(text::views(pieces@).skip(0) =~= text::views(pieces@));
    trimmed_entries(&pieces, 0)
}

/// The preferred languages, given what `DICTATE_LANGUAGES` holds.
pub open spec fn langs_default(env: Option<Seq<char>>) -> Seq<Seq<char>> {
    match env {
        Some(s) if listed_langs(s).len() > 0 => listed_langs(s),
        _ => seq!["en"@, "fr"@, "ro"@],
    }
}

/// The preferred languages, given what `DICTATE_LANGUAGES` holds.
pub fn default_languages(env: Option<String>) -> (r: Vec<String>)
    ensures
        text::views(r@) == langs_default(opt_view(env)),
{
    if let Some(s) = env {
        let list: Vec<String> = parse_langs(s.as_str());
        if list.len() > 0 {
            return list;
        }
    }
    let mut r: Vec<String> = Vec::new();
    r.push("en".to_owned());
    r.push("fr".to_owned());
    r.push("ro".to_owned());
    assert(text::views(r@) =~= seq!["en"@, "fr"@, "ro"@]);
    r
}

// ---------------------------------------------------------------------------------------------
// Settings

/// The user's settings.
pub struct State {
    pub lang: String,
    pub model: String,
    pub mode: String,
    /// Where a transcript goes: "auto", "type" or "clipboard".
    pub delivery: String,
    pub enter: bool,
    pub correct: bool,
    pub correct_hold_ms: u64,
    pub font: String,
    pub input: String,
    pub languages: Vec<String>,
    /// Overlay mode override; `None` follows the delivery.
    pub overlay: Option<OverlayMode>,
    /// Names and jargon that recognition is biased toward.
    pub vocabulary: Vec<String>,
    /// Remove filler words.
    pub remove_fillers: bool,
    /// The half of `delivery` that chooses between injecting and the clipboard.
    pub output: String,
    /// The half of `delivery` that allows the paste chord.
    pub auto_paste: bool,
}

/// The user's settings.
#[verifier::ext_equal]
pub ghost struct StateView {
    pub lang: Seq<char>,
    pub model: Seq<char>,
    pub mode: Seq<char>,
    pub delivery: Seq<char>,
    pub enter: bool,
    pub correct: bool,
    pub correct_hold_ms: u64,
    pub font: Seq<char>,
    pub input: Seq<char>,
    pub languages: Seq<Seq<char>>,
    pub overlay: Option<OverlayMode>,
    pub vocabulary: Seq<Seq<char>>,
    pub remove_fillers: bool,
    pub output: Seq<char>,
    pub auto_paste: bool,
}

impl View for State {
    type V = StateView;

    open spec fn view(&self) -> StateView {
        StateView {
            lang: self.lang@,
            model: self.model@,
            mode: self.mode@,
            delivery: self.delivery@,
            enter: self.enter,
            correct: self.correct,
            correct_hold_ms: self.correct_hold_ms,
            font: self.font@,
            input: self.input@,
            languages: text::views(self.languages@),
            overlay: self.overlay,
            vocabulary: text::views(self.vocabulary@),
            remove_fillers: self.remove_fillers,
            output: self.output@,
            auto_paste: self.auto_paste,
        }
    }
}

/// The delivery that an output and a paste switch amount to.
pub open spec fn delivery_for(output: Seq<char>, auto_paste: bool) -> Seq<char> {
    if output == "clipboard"@ {
        "clipboard"@
    } else if !auto_paste {
        "type"@
    } else {
        "auto"@
    }
}

/// The output half of a delivery.
pub open spec fn output_for(delivery: Seq<char>) -> Seq<char> {
    if delivery == "clipboard"@ {
        "clipboard"@
    } else {
        "type"@
    }
}

impl StateView {
    /// The delivery and its two halves agree, and detection has one name.
    pub open spec fn wf(self) -> bool {
        &&& self.lang != "multi"@
        &&& self.output == output_for(self.delivery)
        &&& self.delivery == "auto"@ ==> self.auto_paste
        &&& self.delivery == "type"@ ==> !self.auto_paste
    }

    /// The overlay that is shown: the explicit choice, else the text panel for the clipboard,
    /// where the panel is the only view of the transcript, and the circles for the deliveries
    /// that inject.
    pub open spec fn overlay_mode(self) -> OverlayMode {
        match self.overlay {
            Some(m) => m,
            None => if self.delivery == "clipboard"@ {
                OverlayMode::Full
            } else {
                OverlayMode::Status
            },
        }
    }

    /// These settings with another output, and the delivery that goes with it.
    pub open spec fn with_output(self, output: Seq<char>) -> StateView {
        StateView { output, delivery: delivery_for(output, self.auto_paste), ..self }
    }

    /// These settings with another paste switch, and the delivery that goes with it.
    pub open spec fn with_auto_paste(self, on: bool) -> StateView {
        StateView { auto_paste: on, delivery: delivery_for(self.output, on), ..self }
    }

    /// These settings with another delivery, and the halves that go with it.
    pub open spec fn with_delivery(self, delivery: Seq<char>) -> StateView {
        StateView {
            delivery,
            output: output_for(delivery),
            auto_paste: if delivery == "auto"@ {
                true
            } else if delivery == "type"@ {
                false
            } else {
                self.auto_paste
            },
            ..self
        }
    }
}

proof fn lemma_delivery_names()
    ensures
        "auto"@ != "type"@,
        "auto"@ != "clipboard"@,
        "type"@ != "clipboard"@,
{
    reveal_strlit("auto");
    reveal_strlit("type");
    reveal_strlit("clipboard");
    assert("auto"@[0] == 'a' && "type"@[0] == 't' && "clipboard"@[0] == 'c');
}

/// Setting the output, the paste switch or the delivery leaves the three in agreement.
pub proof fn law_delivery_stays_consistent(
    s: StateView,
    output: Seq<char>,
    on: bool,
    delivery: Seq<char>,
)
    requires
        s.wf(),
        output == "type"@ || output == "clipboard"@,
        delivery == "auto"@ || delivery == "type"@ || delivery == "clipboard"@,
    ensures
        s.with_output(output).wf(),
        s.with_auto_paste(on).wf(),
        s.with_delivery(delivery).wf(),
        s.with_output(output).output == output,
        s.with_delivery(delivery).delivery == delivery,
{
    lemma_delivery_names();
}

impl State {
    /// The delivery and its two halves agree, and detection has one name.
    pub open spec fn wf(&self) -> bool {
        self@.wf()
    }

    /// The overlay that is shown.
    pub fn overlay_mode(&self) -> (r: OverlayMode)
        ensures
            r == self@.overlay_mode(),
    {
        match self.overlay {
            Some(m) => m,
            None => if same(self.delivery.as_str(), "clipboard") {
                OverlayMode::Full
            } else {
                OverlayMode::Status
            },
        }
    }

    /// Chooses between injecting ("type") and the clipboard.
    pub fn set_output(&mut self, output: String)
        ensures
            final(self)@ == old(self)@.with_output(output@),
    {
        self.delivery = legacy_delivery(Some(output.as_str()), Some(self.auto_paste));
        self.output = output;
    }

    /// Allows or forbids the paste chord.
    pub fn set_auto_paste(&mut self, on: bool)
        ensures
            final(self)@ == old(self)@.with_auto_paste(on),
    {
        self.delivery = legacy_delivery(Some(self.output.as_str()), Some(on));
        self.auto_paste = on;
    }

    /// Chooses where transcripts go.
    pub fn set_delivery(&mut self, delivery: String)
        ensures
            final(self)@ == old(self)@.with_delivery(delivery@),
    {
        if same(delivery.as_str(), "auto") {
            self.auto_paste = true;
        } else if same(delivery.as_str(), "type") {
            self.auto_paste = false;
        }
        self.output = if same(delivery.as_str(), "clipboard") {
            "clipboard".to_owned()
        } else {
            "type".to_owned()
        };
        self.delivery = delivery;
    }
}

/// The delivery that replaces the settings `output` and `auto_paste` of older files.
pub open spec fn migrated(output: Option<Seq<char>>, auto_paste: Option<bool>) -> Seq<char> {
    if output == Some("clipboard"@) {
        "clipboard"@
    } else if auto_paste == Some(false) {
        "type"@
    } else {
        "auto"@
    }
}

fn legacy_delivery(output: Option<&str>, auto_paste: Option<bool>) -> (r: String)
    ensures
        r@ == migrated(
            match output {
                Some(s) => Some(s@),
                None => None,
            },
            auto_paste,
        ),
{
    let clipboard: bool = match output {
        Some(o) => same(o, "clipboard"),
        None => false,
    };
    let no_paste: bool = match auto_paste {
        Some(on) => !on,
        None => false,
    };
    if clipboard {
        "clipboard".to_owned()
    } else if no_paste {
        "type".to_owned()
    } else {
        "auto".to_owned()
    }
}

/// The settings as a configuration file holds them.
pub struct StateFile {
    pub lang: String,
    pub model: String,
    pub mode: String,
    pub delivery: String,
    pub enter: bool,
    pub correct: bool,
    pub correct_hold_ms: u64,
    pub font: String,
    pub input: String,
    pub languages: Vec<String>,
    pub overlay: Option<OverlayMode>,
    pub vocabulary: Vec<String>,
    pub remove_fillers: bool,
    /// Superseded by `delivery`; read only to migrate older files, never written.
    pub output: Option<String>,
    /// Superseded by `delivery`; read only to migrate older files, never written.
    pub auto_paste: Option<bool>,
}

impl StateFile {
    /// The settings that this file stands for. Without a `delivery` in either layer, the older
    /// settings decide it.
    pub open spec fn settings(&self, has_delivery: bool) -> StateView {
        let delivery = if has_delivery {
            self.delivery@
        } else {
            migrated(opt_view(self.output), self.auto_paste)
        };
        StateView {
            lang: if self.lang@ == "multi"@ {
                "auto"@
            } else {
                self.lang@
            },
            model: self.model@,
            mode: self.mode@,
            delivery,
            enter: self.enter,
            correct: self.correct,
            correct_hold_ms: self.correct_hold_ms,
            font: self.font@,
            input: self.input@,
            languages: text::views(self.languages@),
            overlay: self.overlay,
            vocabulary: text::views(self.vocabulary@),
            remove_fillers: self.remove_fillers,
            output: output_for(delivery),
            auto_paste: delivery != "type"@,
        }
    }
}

impl StateFile {
    /// Whether this is the file that holds the settings `s`.
    pub open spec fn written_for(&self, s: StateView) -> bool {
        &&& self.lang@ == s.lang
        &&& self.model@ == s.model
        &&& self.mode@ == s.mode
        &&& self.delivery@ == s.delivery
        &&& self.enter == s.enter
        &&& self.correct == s.correct
        &&& self.correct_hold_ms == s.correct_hold_ms
        &&& self.font@ == s.font
        &&& self.input@ == s.input
        &&& text::views(self.languages@) == s.languages
        &&& self.overlay == s.overlay
        &&& text::views(self.vocabulary@) == s.vocabulary
        &&& self.remove_fillers == s.remove_fillers
        &&& self.output is None
        &&& self.auto_paste is None
    }
}

/// Settings survive a restart: the file written for them is read back as the same settings. Only
/// the paste switch is not kept while the clipboard is the delivery, where it has no effect.
pub proof fn law_settings_survive_restart(s: StateView, file: StateFile)
    requires
        s.wf(),
        file.written_for(s),
    ensures
        file.settings(true) == (StateView { auto_paste: s.delivery != "type"@, ..s }),
        s.delivery == "auto"@ || s.delivery == "type"@ ==> file.settings(true) == s,
{
    lemma_delivery_names();
}

impl State {
    /// The settings that a file stands for; `has_delivery` says whether either layer set one.
    pub fn load(file: StateFile, has_delivery: bool) -> (r: State)
        ensures
            r@ == file.settings(has_delivery),
            r.wf(),
    {
        proof {
            lemma_delivery_names();
            reveal_strlit("multi");
            reveal_strlit("auto");
            assert("multi"@.len() == 5 && "auto"@.len() == 4);
        }
        let lang: String = if same(file.lang.as_str(), "multi") {
            AUTO_LANG.to_owned()
        } else {
            file.lang
        };
        let delivery: String = if has_delivery {
            file.delivery
        } else {
            match &file.output {
                Some(o) => legacy_delivery(Some(o.as_str()), file.auto_paste),
                None => legacy_delivery(None, file.auto_paste),
            }
        };
        let output: String = if same(delivery.as_str(), "clipboard") {
            "clipboard".to_owned()
        } else {
            "type".to_owned()
        };
        let auto_paste: bool = !same(delivery.as_str(), "type");
        State {
            lang,
            model: file.model,
            mode: file.mode,
            delivery,
            enter: file.enter,
            correct: file.correct,
            correct_hold_ms: file.correct_hold_ms,
            font: file.font,
            input: file.input,
            languages: file.languages,
            overlay: file.overlay,
            vocabulary: file.vocabulary,
            remove_fillers: file.remove_fillers,
            output,
            auto_paste,
        }
    }

    /// The file that holds these settings.
    pub fn save(&self) -> (r: StateFile)
        ensures
            r.written_for(self@),
    {
        StateFile {
            lang: self.lang.clone(),
            model: self.model.clone(),
            mode: self.mode.clone(),
            delivery: self.delivery.clone(),
            enter: self.enter,
            correct: self.correct,
            correct_hold_ms: self.correct_hold_ms,
            font: self.font.clone(),
            input: self.input.clone(),
            languages: text::copy_list(&self.languages),
            overlay: self.overlay,
            vocabulary: text::copy_list(&self.vocabulary),
            remove_fillers: self.remove_fillers,
            output: None,
            auto_paste: None,
        }
    }

    /// A copy of these settings.
    pub fn duplicate(&self) -> (r: State)
        ensures
            r@ == self@,
    {
        State {
            lang: self.lang.clone(),
            model: self.model.clone(),
            mode: self.mode.clone(),
            delivery: self.delivery.clone(),
            enter: self.enter,
            correct: self.correct,
            correct_hold_ms: self.correct_hold_ms,
            font: self.font.clone(),
            input: self.input.clone(),
            languages: text::copy_list(&self.languages),
            overlay: self.overlay,
            vocabulary: text::copy_list(&self.vocabulary),
            remove_fillers: self.remove_fillers,
            output: self.output.clone(),
            auto_paste: self.auto_paste,
        }
    }
}

// ---------------------------------------------------------------------------------------------
// Configuration layers

/// `toml::Value`: a TOML value.
#[verifier::external_type_specification]
#[verifier::external_body]
pub struct ExTomlValue(toml::Value);

/// `toml::map::Map`: the type of a TOML table.
#[verifier::external_type_specification]
#[verifier::external_body]
#[verifier::reject_recursive_types(K)]
#[verifier::reject_recursive_types(V)]
pub struct ExTomlMap<K, V>(toml::map::Map<K, V>);

/// `toml::de::Error`: why a text is not TOML.
#[verifier::external_type_specification]
#[verifier::external_body]
pub struct ExTomlReadError(toml::de::Error);

/// `toml::ser::Error`: why a table cannot be written as TOML.
#[verifier::external_type_specification]
#[verifier::external_body]
pub struct ExTomlWriteError(toml::ser::Error);

/// The entries of a TOML table.
pub uninterp spec fn table_entries(t: toml::Table) -> Map<Seq<char>, toml::Value>;

/// The table that a TOML text holds; none when the text is not TOML.
pub uninterp spec fn toml_table(text: Seq<char>) -> Option<Map<Seq<char>, toml::Value>>;

/// The TOML text of a table; none when it cannot be written.
pub uninterp spec fn toml_text(entries: Map<Seq<char>, toml::Value>) -> Option<Seq<char>>;

/// `toml::from_str` into a table: the entries are a function of the text alone.
#[verifier::external_body]
fn read_table(text: &str) -> (r: Result<toml::Table, toml::de::Error>)
    ensures
        match r {
            Ok(t) => toml_table(text@) == Some(table_entries(t)),
            Err(_) => toml_table(text@) is None,
        },
{
    toml::from_str(text)
}

/// `toml::to_string` of a table: the text is a function of its entries, which are written in the
/// order of their keys.
#[verifier::external_body]
fn write_table(t: &toml::Table) -> (r: Result<String, toml::ser::Error>)
    ensures
        match r {
            Ok(s) => toml_text(table_entries(*t)) == Some(s@),
            Err(_) => toml_text(table_entries(*t)) is None,
        },
{
    toml::to_string(t)
}

/// `toml::Table::new` has no entries.
#[verifier::external_body]
fn empty_table() -> (t: toml::Table)
    ensures
        table_entries(t).dom() == Set::<Seq<char>>::empty(),
{
    toml::Table::new()
}

/// `Extend` for a table inserts every entry of `other`; an entry of `other` replaces one of the
/// same key.
#[verifier::external_body]
fn extend_table(t: &mut toml::Table, other: toml::Table)
    ensures
        table_entries(*final(t)) == table_entries(*old(t)).union_prefer_right(
            table_entries(other),
        ),
{
    t.extend(other);
}

/// `toml::Table::contains_key` tells whether there is an entry of that key.
#[verifier::external_body]
fn table_has(t: &toml::Table, key: &str) -> (r: bool)
    ensures
        r == table_entries(*t).dom().contains(key@),
{
    t.contains_key(key)
}

/// The two layers as one: the managed defaults are laid over the user's file, so that a key they
/// set is asserted on every start, while the user's file owns every other key. A layer that is
/// not TOML counts as empty.
pub open spec fn layered(
    user: Option<Map<Seq<char>, toml::Value>>,
    defaults: Option<Map<Seq<char>, toml::Value>>,
) -> Map<Seq<char>, toml::Value> {
    let base = match user {
        Some(m) => m,
        None => Map::empty(),
    };
    match defaults {
        Some(d) => base.union_prefer_right(d),
        None => base,
    }
}

pub open spec fn entries_of(t: Option<toml::Table>) -> Option<Map<Seq<char>, toml::Value>> {
    match t {
        Some(x) => Some(table_entries(x)),
        None => None,
    }
}

/// Lays `defaults` over `user`.
pub fn overlay_tables(user: Option<toml::Table>, defaults: Option<toml::Table>) -> (r: toml::Table)
    ensures
        table_entries(r) == layered(entries_of(user), entries_of(defaults)),
{
    let mut merged: toml::Table = match user {
        Some(t) => t,
        None => {
            let t: toml::Table = empty_table();
            assert(table_entries(t) =~= Map::<Seq<char>, toml::Value>::empty());
            t
        },
    };
    if let Some(d) = defaults {
        extend_table(&mut merged, d);
    }
    merged
}

/// The two layers as one text, and whether either sets `delivery`.
pub fn merge_layers(user_raw: &str, defaults_raw: &str) -> (r: (String, bool))
    ensures
        ({
            let merged = layered(toml_table(user_raw@), toml_table(defaults_raw@));
            &&& r.0@ == match toml_text(merged) {
                Some(s) => s,
                None => Seq::empty(),
            }
            &&& r.1 == merged.dom().contains("delivery"@)
        }),
{
    let user: Option<toml::Table> = match read_table(user_raw) {
        Ok(t) => Some(t),
        Err(_) => None,
    };
    let defaults: Option<toml::Table> = match read_table(defaults_raw) {
        Ok(t) => Some(t),
        Err(_) => None,
    };
    let merged: toml::Table = overlay_tables(user, defaults);
    let has_delivery: bool = table_has(&merged, "delivery");
    let text: String = match write_table(&merged) {
        Ok(s) => s,
        Err(_) => String::new(),
    };
    (text, has_delivery)
}

/// A key that the managed defaults set has their value whatever the user's file says, and a key
/// that they leave alone has the user's.
pub proof fn law_defaults_win(
    user: Map<Seq<char>, toml::Value>,
    defaults: Map<Seq<char>, toml::Value>,
    key: Seq<char>,
)
    ensures
        layered(Some(user), Some(defaults)).dom().contains(key) <==> user.dom().contains(key)
            || defaults.dom().contains(key),
        defaults.dom().contains(key) ==> layered(Some(user), Some(defaults))[key] == defaults[key],
        user.dom().contains(key) && !defaults.dom().contains(key) ==> layered(
            Some(user),
            Some(defaults),
        )[key] == user[key],
{
}

/// An overlay that was chosen is the one that shows. Where none was, text that goes to the
/// clipboard is shown in full, and other text only by its status.
pub proof fn law_overlay_follows_the_delivery(s: StateView, m: OverlayMode)
    ensures
        s.overlay == Some(m) ==> s.overlay_mode() == m,
        s.overlay is None && s.delivery == "clipboard"@ ==> s.overlay_mode() == OverlayMode::Full,
        s.overlay is None && s.delivery != "clipboard"@ ==> s.overlay_mode() == OverlayMode::Status,
{
}

/// Three words name an overlay, and no others do.
pub proof fn law_three_words_name_an_overlay(s: Seq<char>)
    ensures
        overlay_named(s) == Some(OverlayMode::Off) <==> s == "off"@,
        overlay_named(s) == Some(OverlayMode::Status) <==> s == "status"@,
        overlay_named(s) == Some(OverlayMode::Full) <==> s == "full"@,
        overlay_name(OverlayMode::Off) == "off"@,
        overlay_name(OverlayMode::Status) == "status"@,
        overlay_name(OverlayMode::Full) == "full"@,
{
    reveal_strlit("off");
    reveal_strlit("status");
    reveal_strlit("full");
    assert("off"@.len() == 3 && "status"@.len() == 6 && "full"@.len() == 4);
}

/// The delivery and its two halves say the same: "clipboard" is the clipboard, "type" is typing
/// without pasting, "auto" is typing with it. Setting one of the three sets the others to match, and
/// changes no other setting.
pub proof fn law_halves_match_the_delivery(
    s: StateView,
    output: Seq<char>,
    on: bool,
    delivery: Seq<char>,
)
    requires
        output == "type"@ || output == "clipboard"@,
        s.output == "type"@ || s.output == "clipboard"@,
        delivery == "auto"@ || delivery == "type"@ || delivery == "clipboard"@,
    ensures
        ({
            let t = s.with_output(output);
            &&& t.output == output
            &&& t.auto_paste == s.auto_paste
            &&& t.delivery == "clipboard"@ <==> output == "clipboard"@
            &&& t.delivery == "auto"@ <==> output == "type"@ && s.auto_paste
            &&& t.delivery == "type"@ <==> output == "type"@ && !s.auto_paste
            &&& (StateView { output: s.output, delivery: s.delivery, ..t }) == s
        }),
        ({
            let t = s.with_auto_paste(on);
            &&& t.output == s.output
            &&& t.auto_paste == on
            &&& t.delivery == "clipboard"@ <==> s.output == "clipboard"@
            &&& t.delivery == "auto"@ <==> s.output == "type"@ && on
            &&& t.delivery == "type"@ <==> s.output == "type"@ && !on
            &&& (StateView { auto_paste: s.auto_paste, delivery: s.delivery, ..t }) == s
        }),
        ({
            let t = s.with_delivery(delivery);
            &&& t.delivery == delivery
            &&& t.output == "clipboard"@ <==> delivery == "clipboard"@
            &&& t.output == "type"@ <==> delivery != "clipboard"@
            &&& delivery == "auto"@ ==> t.auto_paste
            &&& delivery == "type"@ ==> !t.auto_paste
            &&& delivery == "clipboard"@ ==> t.auto_paste == s.auto_paste
            &&& (StateView {
                output: s.output,
                auto_paste: s.auto_paste,
                delivery: s.delivery,
                ..t
            }) == s
        }),
{
    reveal_strlit("auto");
    reveal_strlit("type");
    reveal_strlit("clipboard");
    assert("clipboard"@.len() == 9 && "auto"@[0] == 'a' && "type"@[0] == 't' && "type"@.len() == 4
        && "auto"@.len() == 4);
}

/// A file without a delivery is read by the settings that the delivery took the place of: what went
/// to the clipboard still does, and what was not to be pasted still is not.
pub proof fn law_older_files_keep_their_meaning(file: StateFile)
    ensures
        ({
            let s = file.settings(false);
            let to_clipboard = file.output is Some && file.output->0@ == "clipboard"@;
            &&& s.output == "clipboard"@ <==> to_clipboard
            &&& s.output == "type"@ <==> !to_clipboard
            &&& !to_clipboard && file.auto_paste is Some ==> s.auto_paste == file.auto_paste->0
            &&& !to_clipboard && file.auto_paste is None ==> s.auto_paste
            &&& to_clipboard ==> s.delivery == "clipboard"@
            &&& !to_clipboard && s.auto_paste ==> s.delivery == "auto"@
            &&& !to_clipboard && !s.auto_paste ==> s.delivery == "type"@
        }),
{
    reveal_strlit("auto");
    reveal_strlit("type");
    reveal_strlit("clipboard");
    assert("clipboard"@.len() == 9 && "auto"@[0] == 'a' && "type"@[0] == 't' && "type"@.len() == 4
        && "auto"@.len() == 4);
}

/// What a file says is what the settings are, whether or not it has a delivery. Only the language
/// "multi" is read as another, "auto".
pub proof fn law_settings_are_those_of_the_file(file: StateFile, has_delivery: bool)
    ensures
        ({
            let s = file.settings(has_delivery);
            &&& file.lang@ == "multi"@ ==> s.lang == "auto"@
            &&& file.lang@ != "multi"@ ==> s.lang == file.lang@
            &&& s.model == file.model@
            &&& s.mode == file.mode@
            &&& has_delivery ==> s.delivery == file.delivery@
            &&& s.enter == file.enter
            &&& s.correct == file.correct
            &&& s.correct_hold_ms == file.correct_hold_ms
            &&& s.font == file.font@
            &&& s.input == file.input@
            &&& s.languages == text::views(file.languages@)
            &&& s.overlay == file.overlay
            &&& s.vocabulary == text::views(file.vocabulary@)
            &&& s.remove_fillers == file.remove_fillers
            &&& has_delivery && file.delivery@ == "clipboard"@ ==> s.output == "clipboard"@
            &&& has_delivery && file.delivery@ != "clipboard"@ ==> s.output == "type"@
            &&& has_delivery ==> (s.auto_paste <==> file.delivery@ != "type"@)
        }),
{
}

/// The entries of a list are its pieces without the blanks round them, in their order, but for those
/// that are nothing but blanks.
pub proof fn law_entries_are_the_trimmed_pieces(pieces: Seq<Seq<char>>)
    ensures
        entries(pieces) == pieces.map_values(|p: Seq<char>| text::trimmed(p)).filter(
            |p: Seq<char>| p.len() > 0,
        ),
    decreases pieces.len(),
{
    reveal(Seq::filter);
    let all = pieces.map_values(|p: Seq<char>| text::trimmed(p));
    if pieces.len() > 0 {
        law_entries_are_the_trimmed_pieces(pieces.drop_last());
        assert(all.drop_last() =~= pieces.drop_last().map_values(
            |p: Seq<char>| text::trimmed(p),
        ));
    } else {
        assert(all =~= Seq::<Seq<char>>::empty());
    }
}

/// The languages are those that the environment lists between its commas. Where it lists none they
/// are English, French and Romanian.
pub proof fn law_default_languages(env: Option<Seq<char>>)
    ensures
        env is Some && entries(text::split(env->0, ',')).len() > 0 ==> langs_default(env)
            == entries(text::split(env->0, ',')),
        env is None || entries(text::split(env->0, ',')).len() == 0 ==> langs_default(env)
            == seq!["en"@, "fr"@, "ro"@],
        env is Some ==> listed_langs(env->0) == entries(text::split(env->0, ',')),
{
}

/// A value of the environment takes the place of the default.
pub proof fn law_environment_comes_first(value: Seq<char>, default: Seq<char>)
    ensures
        env_or(Some(value), default) == value,
        env_or(None, default) == default,
{
}

/// A layer that is not there changes nothing.
pub proof fn law_missing_layers_change_nothing(entries: Map<Seq<char>, toml::Value>)
    ensures
        layered(Some(entries), None) == entries,
        layered(None, Some(entries)) == entries,
        layered(None, None) == Map::<Seq<char>, toml::Value>::empty(),
{
    assert(Map::<Seq<char>, toml::Value>::empty().union_prefer_right(entries) =~= entries);
}

} // verus!
