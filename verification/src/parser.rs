//! The configuration model: the typed shape of a workflow document, and the
//! structural validity conditions a workflow must satisfy before a session
//! can run on it.
//!
//! String-keyed tables are held as association lists of `(key, value)` pairs
//! with distinct keys; [`lookup`] is their mathematical reading.

use vstd::prelude::*;
use crate::strutil::str_eq;

verus! {

/// First value bound to key `k` at or after position `i`, if any.
pub open spec fn lookup_from<V>(s: Seq<(String, V)>, k: Seq<char>, i: int) -> Option<V>
    decreases s.len() - i,
{
    if i < 0 || i >= s.len() {
        None
    } else if s[i].0@ == k {
        Some(s[i].1)
    } else {
        lookup_from(s, k, i + 1)
    }
}

/// The value bound to key `k` in the association list `s`, if any.
pub open spec fn lookup<V>(s: Seq<(String, V)>, k: Seq<char>) -> Option<V> {
    lookup_from(s, k, 0)
}

/// Whether the association list `s` binds the key `k`.
pub open spec fn has_key<V>(s: Seq<(String, V)>, k: Seq<char>) -> bool {
    exists|i: int| 0 <= i < s.len() && s[i].0@ == k
}

/// All keys of the association list are distinct.
pub open spec fn keys_unique<V>(s: Seq<(String, V)>) -> bool {
    forall|i: int, j: int| 0 <= i < j < s.len() ==> s[i].0@ != s[j].0@
}

proof fn lemma_lookup_from_some<V>(s: Seq<(String, V)>, k: Seq<char>, i: int)
    requires
        0 <= i <= s.len(),
    ensures
        lookup_from(s, k, i) is Some <==> exists|j: int| i <= j < s.len() && s[j].0@ == k,
    decreases s.len() - i,
{
    if i < s.len() {
        lemma_lookup_from_some(s, k, i + 1);
    }
}

/// A key is bound exactly when `lookup` finds a value for it.
pub proof fn lemma_lookup_has_key<V>(s: Seq<(String, V)>, k: Seq<char>)
    ensures
        lookup(s, k) is Some <==> has_key(s, k),
{
    lemma_lookup_from_some(s, k, 0);
}

/// Looks a key up in an association list, returning a reference to the first
/// value bound to it.
pub fn alist_get<'a, V>(s: &'a Vec<(String, V)>, k: &str) -> (r: Option<&'a V>)
    ensures
        match r {
            Some(v) => lookup(s@, k@) == Some(*v),
            None => lookup(s@, k@) is None,
        },
{
    let n = s.len();
    let mut i: usize = 0;
    while i < n
        invariant
            n == s@.len(),
            i <= n,
            lookup(s@, k@) == lookup_from(s@, k@, i as int),
        decreases n - i,
    {
        if str_eq(s[i].0.as_str(), k) {
            return Some(&s[i].1);
        }
        i += 1;
    }
    None
}

/// The characters of `s` include no comma.
pub open spec fn no_comma(s: Seq<char>) -> bool {
    forall|i: int| 0 <= i < s.len() ==> s[i] != ','
}

/// Every tag in the list is comma-free.
pub open spec fn tags_ok(tags: Seq<String>) -> bool {
    forall|i: int| 0 <= i < tags.len() ==> no_comma(#[trigger] tags[i]@)
}

/// The possible shapes of a configuration document: a root document that
/// names one document per language, or the document for a single language.
#[derive(Debug, Clone)]
pub enum Config {
    /// A root document mapping each locale to the file that holds its
    /// language document.
    Root { languages: Vec<(String, String)> },
    /// A language document: the message shown beside an unfilled mandatory
    /// input, and one workflow per name.
    Language { input_err_msg: String, workflows: Vec<(String, Workflow)> },
}

/// One complete branching questionnaire: its declared tags, its sections,
/// the name of the section it starts on, and its endpoints.
#[derive(Debug, Clone)]
pub struct Workflow {
    /// The tags this workflow can accumulate. Tags must not contain commas:
    /// the comma is the wire delimiter of the encoded tag trail.
    pub tags: Vec<String>,
    /// The sections of the questionnaire, by name.
    pub sections: Vec<(String, Section)>,
    /// The name of the section a session starts on; a key of `sections`.
    pub index: String,
    /// The terminal endpoints, by name.
    pub endpoints: Vec<(String, Endpoint)>,
}

/// A section is an ordered list of elements; the order is render order.
pub type Section = Vec<SectionElem>;

/// One element of a section.
#[derive(Debug, Clone)]
pub enum SectionElem {
    /// Passive text shown to the user.
    Text(String),
    /// A user-triggered edge to another section, or, when `link` carries the
    /// endpoint prefix, to an endpoint; taking it accumulates `tags`.
    Progression { text: String, link: String, tags: Vec<String> },
    /// A form input.
    Input(InputSectionElem),
}

/// A form input and its presentation properties.
#[derive(Debug, Clone)]
pub struct InputSectionElem {
    /// The id under which the entered value is stored and later
    /// interpolated into a report.
    pub id: String,
    /// The label shown beside the input.
    pub label: String,
    /// Whether the input may be left empty.
    pub optional: bool,
    /// The value the input starts with when the user has not entered one.
    pub default: Option<String>,
    /// The kind-specific properties of the input.
    pub input: Input,
}

/// The two capability sets an input can have.
#[derive(Debug, Clone)]
pub enum Input {
    /// A text-like input of some subtype.
    Text { input_type: InputType },
    /// A dropdown over fixed options.
    Select { options: Vec<SelectOption>, can_select_multiple: bool },
}

/// The subtypes of a text-like input.
#[derive(Debug, Clone)]
pub enum InputType {
    /// A boolean toggle; when it reads `true`, its attached tags are
    /// accumulated.
    Boolean { tags: Option<Vec<String>> },
    /// A multiline text input.
    Multiline,
    /// A color picker.
    Color,
    /// A plain text input (the default).
    Text,
    /// A date input.
    Date,
    /// A date-and-time input without an offset.
    DatetimeLocal,
    /// An email input.
    Email,
    /// A month input.
    Month,
    /// A numerical input.
    Number { min: Option<i32>, max: Option<i32> },
    /// A password input.
    Password,
    /// A range slider.
    Range { min: i32, max: i32 },
    /// A telephone number input.
    Tel,
    /// A time picker.
    Time,
    /// A URL input.
    Url,
    /// A week input.
    Week,
}

/// One option of a select input. Its display text must not contain commas:
/// the comma separates the texts of a multiple selection.
#[derive(Debug, Clone)]
pub enum SelectOption {
    /// An option that only has a display text.
    Simple(String),
    /// An option that accumulates tags when selected.
    WithTags { text: String, tags: Vec<String> },
}

/// A terminal node of the questionnaire.
#[derive(Debug, Clone)]
pub enum Endpoint {
    /// A report to hand back to the project: a preamble shown to the user,
    /// and a template interpolated with the collected form values.
    Report { preamble: String, text: String },
    /// Literal instructions, with no interpolation and no tag trail.
    Instructional(String),
}

/// The message shown beside a mandatory input the user left empty, when the
/// language document does not override it.
pub fn default_input_err_msg() -> (r: String)
    ensures
        r@ == "This field is required, please enter a value."@,
{
    "This field is required, please enter a value.".to_owned()
}

impl InputType {
    /// The name of this subtype on the wire (its form-control type).
    pub open spec fn control_name(self) -> Seq<char> {
        match self {
            InputType::Boolean { .. } => "checkbox"@,
            InputType::Multiline => "multiline"@,
            InputType::Color => "color"@,
            InputType::Text => "text"@,
            InputType::Date => "date"@,
            InputType::DatetimeLocal => "datetime-local"@,
            InputType::Email => "email"@,
            InputType::Month => "month"@,
            InputType::Number { .. } => "number"@,
            InputType::Password => "password"@,
            InputType::Range { .. } => "range"@,
            InputType::Tel => "tel"@,
            InputType::Time => "time"@,
            InputType::Url => "url"@,
            InputType::Week => "week"@,
        }
    }

    /// Renders the subtype's form-control type name.
    pub fn to_string(&self) -> (r: String)
        ensures
            r@ == self.control_name(),
    {
        match self {
            InputType::Boolean { .. } => "checkbox".to_owned(),
            InputType::Multiline => "multiline".to_owned(),
            InputType::Color => "color".to_owned(),
            InputType::Text => "text".to_owned(),
            InputType::Date => "date".to_owned(),
            InputType::DatetimeLocal => "datetime-local".to_owned(),
            InputType::Email => "email".to_owned(),
            InputType::Month => "month".to_owned(),
            InputType::Number { .. } => "number".to_owned(),
            InputType::Password => "password".to_owned(),
            InputType::Range { .. } => "range".to_owned(),
            InputType::Tel => "tel".to_owned(),
            InputType::Time => "time".to_owned(),
            InputType::Url => "url".to_owned(),
            InputType::Week => "week".to_owned(),
        }
    }
}

impl Default for InputType {
    /// A text-like input with no explicit subtype is plain text.
    fn default() -> (r: Self)
        ensures
            r == InputType::Text,
    {
        InputType::Text
    }
}

/// Whether a location name carries the endpoint prefix and so names an
/// endpoint rather than a section.
pub open spec fn is_endpoint_loc(s: Seq<char>) -> bool {
    s.len() >= 9 && s.subrange(0, 9) == "endpoint:"@
}

/// The endpoint named by an endpoint-prefixed location.
pub open spec fn endpoint_name_of(s: Seq<char>) -> Seq<char> {
    s.subrange(9, s.len() as int)
}

/// Strips the endpoint prefix off a location name: the named endpoint for
/// an endpoint-prefixed location, nothing for a section name.
pub fn match_endpoint_loc(s: &str) -> (r: Option<String>)
    ensures
        match r {
            Some(name) => is_endpoint_loc(s@) && name@ == endpoint_name_of(s@),
            None => !is_endpoint_loc(s@),
        },
{
    proof {
        reveal_strlit("endpoint:");
    }
    let n = s.unicode_len();
    if n >= 9 {
        let p = s.substring_char(0, 9);
        if str_eq(p, "endpoint:") {
            let rest = s.substring_char(9, n);
            return Some(rest.to_owned());
        }
    }
    None
}

/// The display text of a select option.
pub open spec fn opt_text(o: SelectOption) -> Seq<char> {
    match o {
        SelectOption::Simple(t) => t@,
        SelectOption::WithTags { text, .. } => text@,
    }
}

/// The tags a select option accumulates when selected; none for a simple
/// option.
pub open spec fn opt_tags(o: SelectOption) -> Seq<String> {
    match o {
        SelectOption::Simple(_) => Seq::empty(),
        SelectOption::WithTags { tags, .. } => tags@,
    }
}

/// The options of a select input are valid: comma-free distinct display
/// texts, comma-free tags.
pub open spec fn options_ok(options: Seq<SelectOption>) -> bool {
    &&& forall|i: int| 0 <= i < options.len() ==> no_comma(opt_text(#[trigger] options[i]))
    &&& forall|i: int| 0 <= i < options.len() ==> tags_ok(opt_tags(#[trigger] options[i]))
    &&& forall|i: int, j: int| 0 <= i < j < options.len() ==> opt_text(options[i]) != opt_text(options[j])
}

/// An input element is valid: its option table or boolean tag list is.
pub open spec fn input_ok(e: InputSectionElem) -> bool {
    match e.input {
        Input::Select { options, .. } => options_ok(options@),
        Input::Text { input_type: InputType::Boolean { tags: Some(ts) } } => tags_ok(ts@),
        _ => true,
    }
}

/// A section element is valid.
pub open spec fn elem_ok(e: SectionElem) -> bool {
    match e {
        SectionElem::Text(_) => true,
        SectionElem::Progression { tags, .. } => tags_ok(tags@),
        SectionElem::Input(ie) => input_ok(ie),
    }
}

/// No two inputs of the section share an id.
pub open spec fn section_ids_unique(sec: Seq<SectionElem>) -> bool {
    forall|i: int, j: int| 0 <= i < j < sec.len() ==> match (#[trigger] sec[i], #[trigger] sec[j]) {
        (SectionElem::Input(a), SectionElem::Input(b)) => a.id@ != b.id@,
        _ => true,
    }
}

/// A section is valid: each element is, and input ids are distinct.
pub open spec fn section_ok(sec: Seq<SectionElem>) -> bool {
    &&& forall|i: int| 0 <= i < sec.len() ==> elem_ok(#[trigger] sec[i])
    &&& section_ids_unique(sec)
}

impl Workflow {
    /// Structural validity of a workflow: comma-free tags everywhere, a
    /// starting section that exists, distinct section and endpoint names,
    /// and valid sections.
    pub open spec fn wf_ok(self) -> bool {
        &&& tags_ok(self.tags@)
        &&& keys_unique(self.sections@)
        &&& keys_unique(self.endpoints@)
        &&& has_key(self.sections@, self.index@)
        &&& !is_endpoint_loc(self.index@)
        &&& forall|i: int| 0 <= i < self.sections@.len() ==> section_ok(#[trigger] self.sections@[i].1@)
    }

    /// Decides structural validity.
    pub fn validate(&self) -> (r: bool)
        ensures
            r == self.wf_ok(),
    {
        if !check_tags(&self.tags) {
            return false;
        }
        if !check_section_keys_unique(&self.sections) {
            return false;
        }
        if !check_endpoint_keys_unique(&self.endpoints) {
            return false;
        }
        let index_found = alist_get(&self.sections, self.index.as_str());
        proof {
            lemma_lookup_has_key(self.sections@, self.index@);
        }
        if index_found.is_none() {
            return false;
        }
        if match_endpoint_loc(self.index.as_str()).is_some() {
            return false;
        }
        let n = self.sections.len();
        let mut i: usize = 0;
        while i < n
            invariant
                n == self.sections@.len(),
                i <= n,
                forall|k: int| 0 <= k < i ==> section_ok(#[trigger] self.sections@[k].1@),
            decreases n - i,
        {
            if !check_section(&self.sections[i].1) {
                return false;
            }
            i += 1;
        }
        true
    }
}

/// For every valid workflow, the declared starting section is a key of its
/// section table.
pub proof fn lemma_valid_index_in_sections(w: Workflow)
    requires
        w.wf_ok(),
    ensures
        has_key(w.sections@, w.index@),
{
}

/// Decides whether the characters of `s` include no comma.
fn has_no_comma(s: &str) -> (r: bool)
    ensures
        r == no_comma(s@),
{
    let n = s.unicode_len();
    let mut i: usize = 0;
    while i < n
        invariant
            n == s@.len(),
            i <= n,
            forall|j: int| 0 <= j < i ==> s@[j] != ',',
        decreases n - i,
    {
        if s.get_char(i) == ',' {
            return false;
        }
        i += 1;
    }
    true
}

/// Decides whether every tag in the list is comma-free.
fn check_tags(tags: &Vec<String>) -> (r: bool)
    ensures
        r == tags_ok(tags@),
{
    let n = tags.len();
    let mut i: usize = 0;
    while i < n
        invariant
            n == tags@.len(),
            i <= n,
            forall|j: int| 0 <= j < i ==> no_comma(#[trigger] tags@[j]@),
        decreases n - i,
    {
        if !has_no_comma(tags[i].as_str()) {
            return false;
        }
        i += 1;
    }
    true
}

/// Decides whether the section names are distinct.
fn check_section_keys_unique(s: &Vec<(String, Section)>) -> (r: bool)
    ensures
        r == keys_unique(s@),
{
    let n = s.len();
    let mut i: usize = 0;
    while i < n
        invariant
            n == s@.len(),
            i <= n,
            forall|a: int, b: int| 0 <= a < b < i ==> s@[a].0@ != s@[b].0@,
        decreases n - i,
    {
        let mut j: usize = 0;
        while j < i
            invariant
                n == s@.len(),
                j <= i < n,
                forall|b: int| 0 <= b < j ==> s@[b].0@ != s@[i as int].0@,
            decreases i - j,
        {
            if str_eq(s[j].0.as_str(), s[i].0.as_str()) {
                return false;
            }
            j += 1;
        }
        i += 1;
    }
    true
}

/// Decides whether the endpoint names are distinct.
fn check_endpoint_keys_unique(s: &Vec<(String, Endpoint)>) -> (r: bool)
    ensures
        r == keys_unique(s@),
{
    let n = s.len();
    let mut i: usize = 0;
    while i < n
        invariant
            n == s@.len(),
            i <= n,
            forall|a: int, b: int| 0 <= a < b < i ==> s@[a].0@ != s@[b].0@,
        decreases n - i,
    {
        let mut j: usize = 0;
        while j < i
            invariant
                n == s@.len(),
                j <= i < n,
                forall|b: int| 0 <= b < j ==> s@[b].0@ != s@[i as int].0@,
            decreases i - j,
        {
            if str_eq(s[j].0.as_str(), s[i].0.as_str()) {
                return false;
            }
            j += 1;
        }
        i += 1;
    }
    true
}

/// The display text of a select option.
pub fn option_text(o: &SelectOption) -> (r: &String)
    ensures
        r@ == opt_text(*o),
{
    match o {
        SelectOption::Simple(t) => t,
        SelectOption::WithTags { text, .. } => text,
    }
}

/// Decides whether the options of a select input are valid.
fn check_options(options: &Vec<SelectOption>) -> (r: bool)
    ensures
        r == options_ok(options@),
{
    let n = options.len();
    let mut i: usize = 0;
    while i < n
        invariant
            n == options@.len(),
            i <= n,
            forall|k: int| 0 <= k < i ==> no_comma(opt_text(#[trigger] options@[k])),
            forall|k: int| 0 <= k < i ==> tags_ok(opt_tags(#[trigger] options@[k])),
            forall|a: int, b: int| 0 <= a < b < i ==> opt_text(options@[a]) != opt_text(options@[b]),
        decreases n - i,
    {
        if !has_no_comma(option_text(&options[i]).as_str()) {
            return false;
        }
        match &options[i] {
            SelectOption::Simple(_) => {},
            SelectOption::WithTags { tags, .. } => {
                if !check_tags(tags) {
                    return false;
                }
            },
        }
        let mut j: usize = 0;
        while j < i
            invariant
                n == options@.len(),
                j <= i < n,
                forall|b: int| 0 <= b < j ==> opt_text(options@[b]) != opt_text(options@[i as int]),
            decreases i - j,
        {
            if str_eq(option_text(&options[j]).as_str(), option_text(&options[i]).as_str()) {
                return false;
            }
            j += 1;
        }
        i += 1;
    }
    true
}

/// Decides whether an input element is valid.
fn check_input(e: &InputSectionElem) -> (r: bool)
    ensures
        r == input_ok(*e),
{
    match &e.input {
        Input::Select { options, .. } => check_options(options),
        Input::Text { input_type: InputType::Boolean { tags: Some(ts) } } => check_tags(ts),
        _ => true,
    }
}

/// Decides whether a section is valid.
fn check_section(sec: &Vec<SectionElem>) -> (r: bool)
    ensures
        r == section_ok(sec@),
{
    let n = sec.len();
    let mut i: usize = 0;
    while i < n
        invariant
            n == sec@.len(),
            i <= n,
            forall|k: int| 0 <= k < i ==> elem_ok(#[trigger] sec@[k]),
        decreases n - i,
    {
        let elem_fine = match &sec[i] {
            SectionElem::Text(_) => true,
            SectionElem::Progression { tags, .. } => check_tags(tags),
            SectionElem::Input(ie) => check_input(ie),
        };
        if !elem_fine {
            return false;
        }
        proof {
            assert(elem_ok(sec@[i as int]));
        }
        i += 1;
    }
    let mut i: usize = 0;
    while i < n
        invariant
            n == sec@.len(),
            i <= n,
            forall|k: int| 0 <= k < n ==> elem_ok(#[trigger] sec@[k]),
            forall|a: int, b: int| 0 <= a < b < i ==> match (#[trigger] sec@[a], #[trigger] sec@[b]) {
                (SectionElem::Input(x), SectionElem::Input(y)) => x.id@ != y.id@,
                _ => true,
            },
        decreases n - i,
    {
        match &sec[i] {
            SectionElem::Input(ie) => {
                let mut j: usize = 0;
                while j < i
                    invariant
                        n == sec@.len(),
                        j <= i < n,
                        sec@[i as int] matches SectionElem::Input(y) && y.id@ == ie.id@,
                        forall|b: int| 0 <= b < j ==> match (#[trigger] sec@[b], sec@[i as int]) {
                            (SectionElem::Input(x), SectionElem::Input(y)) => x.id@ != y.id@,
                            _ => true,
                        },
                    decreases i - j,
                {
                    match &sec[j] {
                        SectionElem::Input(je) => {
                            if str_eq(je.id.as_str(), ie.id.as_str()) {
                                return false;
                            }
                        },
                        _ => {},
                    }
                    j += 1;
                }
            },
            _ => {},
        }
        i += 1;
    }
    true
}

} // verus!
