//! The workflow session: the navigation history with its cursor, the form
//! value store, and the transient editing state of the current section,
//! driven by the three user transitions — advance, jump and edit.
//!
//! Contracts are stated over text-level models: [`FieldImage`] reads an
//! input's editing state, [`fv_view`](crate::form::fv_view) reads the form
//! store, and the history is read as `(location, tags)` pairs.

use vstd::prelude::*;
use crate::errors::NavigationError;
use crate::form::{fv_view, vlookup, vstore, form_get, form_set};
use crate::parser::{
    Endpoint, Input, InputSectionElem, InputType, SectionElem, SelectOption, Workflow,
    endpoint_name_of, has_key, is_endpoint_loc, lookup, lemma_lookup_has_key, match_endpoint_loc,
    opt_text,
};
use crate::report::{flat_tags, join_commas, render_report, report_text};
use vstd::utf8::encode_utf8;
use crate::strutil::str_eq;
use crate::tags::{
    InputImage, add_all, input_image, option_tag_views, options_table, value_tags,
    accumulate_input_tags,
};

verus! {

/// What an input element means to the runtime, read at text level: its id,
/// whether it may stay empty, its declared default, and its tag behaviour.
pub struct ElemImage {
    /// The id the entered value is stored under.
    pub id: Seq<char>,
    /// Whether the input may be left empty.
    pub optional: bool,
    /// The declared default value, if any.
    pub default: Option<Seq<char>>,
    /// The input's tag behaviour.
    pub input: InputImage,
}

/// The editing state of one rendered input: the element, its current value,
/// and whether it is flagged as missing.
pub struct FieldImage {
    /// The input element, read at text level.
    pub elem: ElemImage,
    /// The value currently shown in the input.
    pub value: Seq<char>,
    /// Whether the input is flagged as an unfilled mandatory field.
    pub error: bool,
}

/// The text-level image of an input element.
pub open spec fn elem_image(e: InputSectionElem) -> ElemImage {
    ElemImage {
        id: e.id@,
        optional: e.optional,
        default: match e.default {
            Some(d) => Some(d@),
            None => None,
        },
        input: input_image(e.input),
    }
}

/// The editing state of one rendered input.
pub struct FieldState {
    /// The input element this state belongs to.
    pub elem: InputSectionElem,
    /// The value currently shown in the input.
    pub value: String,
    /// Whether the input is flagged as an unfilled mandatory field.
    pub error: bool,
}

/// The text-level image of one editing state.
pub open spec fn field_image(f: FieldState) -> FieldImage {
    FieldImage { elem: elem_image(f.elem), value: f.value@, error: f.error }
}

/// The text-level image of a whole editing state.
pub open spec fn fields_images(s: Seq<FieldState>) -> Seq<FieldImage> {
    s.map(|i: int, f: FieldState| field_image(f))
}

/// One visited location and the tags finalized there.
pub struct HistoryEntry {
    /// The section or endpoint-prefixed location that was visited.
    pub location: String,
    /// The tags accumulated when the user advanced past this location;
    /// empty until then.
    pub tags: Vec<String>,
}

/// The text-level image of a history entry.
pub open spec fn entry_image(e: HistoryEntry) -> (Seq<char>, Seq<Seq<char>>) {
    (e.location@, e.tags.deep_view())
}

/// The text-level image of a whole history.
pub open spec fn history_images(s: Seq<HistoryEntry>) -> Seq<(Seq<char>, Seq<Seq<char>>)> {
    s.map(|i: int, e: HistoryEntry| entry_image(e))
}

/// A location resolves when it names an existing section, or an existing
/// endpoint through the endpoint prefix.
pub open spec fn loc_resolves(w: Workflow, loc: Seq<char>) -> bool {
    if is_endpoint_loc(loc) {
        has_key(w.endpoints@, endpoint_name_of(loc))
    } else {
        has_key(w.sections@, loc)
    }
}

/// The elements of the section named `name`; empty when there is none.
pub open spec fn section_of(w: Workflow, name: Seq<char>) -> Seq<SectionElem> {
    match lookup(w.sections@, name) {
        Some(v) => v@,
        None => Seq::empty(),
    }
}

/// The value an input shows when its section is entered: the stored value
/// when the id was ever set (an empty entry stays empty), else the
/// declared default, else empty; a boolean input normalizes anything but
/// `true` to `false`.
pub open spec fn seed_value(ei: ElemImage, m: Seq<(Seq<char>, Seq<char>)>) -> Seq<char> {
    let v1 = match vlookup(m, ei.id) {
        Some(v) => v,
        None => match ei.default {
            Some(d) => d,
            None => Seq::<char>::empty(),
        },
    };
    if ei.input.is_bool {
        if v1 == "true"@ {
            v1
        } else {
            "false"@
        }
    } else {
        v1
    }
}

/// The editing state a section's elements from position `i` on rebuild to,
/// and the form store after their seeded values are written back to it.
pub open spec fn seeded_from(
    sec: Seq<SectionElem>,
    m: Seq<(Seq<char>, Seq<char>)>,
    i: int,
) -> (Seq<FieldImage>, Seq<(Seq<char>, Seq<char>)>)
    decreases sec.len() - i,
{
    if i < 0 || i >= sec.len() {
        (Seq::empty(), m)
    } else {
        match sec[i] {
            SectionElem::Input(ie) => {
                let ei = elem_image(ie);
                let v = seed_value(ei, m);
                let m1 = vstore(m, ei.id, v);
                let r = seeded_from(sec, m1, i + 1);
                (seq![FieldImage { elem: ei, value: v, error: false }] + r.0, r.1)
            },
            _ => seeded_from(sec, m, i + 1),
        }
    }
}

/// The editing state a section rebuilds to, and the form store afterwards.
pub open spec fn seeded(sec: Seq<SectionElem>, m: Seq<(Seq<char>, Seq<char>)>) -> (
    Seq<FieldImage>,
    Seq<(Seq<char>, Seq<char>)>,
) {
    seeded_from(sec, m, 0)
}

/// Copies a list of strings.
fn clone_string_vec(v: &Vec<String>) -> (r: Vec<String>)
    ensures
        r@ == v@,
{
    let n = v.len();
    let mut r: Vec<String> = Vec::new();
    let mut i: usize = 0;
    while i < n
        invariant
            n == v@.len(),
            i <= n,
            r@ == v@.subrange(0, i as int),
        decreases n - i,
    {
        r.push(v[i].clone());
        proof {
            assert(r@ =~= v@.subrange(0, i + 1 as int));
        }
        i += 1;
    }
    proof {
        assert(r@ =~= v@);
    }
    r
}

/// Copies an option list; the copy reads as the same option table.
fn clone_options(v: &Vec<SelectOption>) -> (r: Vec<SelectOption>)
    ensures
        options_table(r@) == options_table(v@),
{
    let n = v.len();
    let mut r: Vec<SelectOption> = Vec::new();
    let mut i: usize = 0;
    while i < n
        invariant
            n == v@.len(),
            i <= n,
            r@.len() == i,
            forall|j: int| 0 <= j < i ==> opt_text(#[trigger] r@[j]) == opt_text(v@[j])
                && option_tag_views(r@[j]) == option_tag_views(v@[j]),
        decreases n - i,
    {
        let c = match &v[i] {
            SelectOption::Simple(t) => SelectOption::Simple(t.clone()),
            SelectOption::WithTags { text, tags } => {
                let ts = clone_string_vec(tags);
                proof {
                    assert(ts.deep_view() =~= tags.deep_view());
                }
                SelectOption::WithTags { text: text.clone(), tags: ts }
            },
        };
        r.push(c);
        i += 1;
    }
    proof {
        assert(options_table(r@) =~= options_table(v@));
    }
    r
}

/// Copies an input; the copy reads as the same tag behaviour.
fn clone_input(inp: &Input) -> (r: Input)
    ensures
        input_image(r) == input_image(*inp),
{
    match inp {
        Input::Select { options, can_select_multiple } => {
            let opts = clone_options(options);
            Input::Select { options: opts, can_select_multiple: *can_select_multiple }
        },
        Input::Text { input_type } => {
            let it = match input_type {
                InputType::Boolean { tags } => {
                    let ts = match tags {
                        Some(ts) => {
                            let c = clone_string_vec(ts);
                            proof {
                                assert(c.deep_view() =~= ts.deep_view());
                            }
                            Some(c)
                        },
                        None => None,
                    };
                    InputType::Boolean { tags: ts }
                },
                InputType::Multiline => InputType::Multiline,
                InputType::Color => InputType::Color,
                InputType::Text => InputType::Text,
                InputType::Date => InputType::Date,
                InputType::DatetimeLocal => InputType::DatetimeLocal,
                InputType::Email => InputType::Email,
                InputType::Month => InputType::Month,
                InputType::Number { min, max } => InputType::Number { min: *min, max: *max },
                InputType::Password => InputType::Password,
                InputType::Range { min, max } => InputType::Range { min: *min, max: *max },
                InputType::Tel => InputType::Tel,
                InputType::Time => InputType::Time,
                InputType::Url => InputType::Url,
                InputType::Week => InputType::Week,
            };
            Input::Text { input_type: it }
        },
    }
}

/// Copies an input element; the copy reads as the same image.
fn clone_elem(e: &InputSectionElem) -> (r: InputSectionElem)
    ensures
        elem_image(r) == elem_image(*e),
{
    let d = match &e.default {
        Some(d) => Some(d.clone()),
        None => None,
    };
    let inp = clone_input(&e.input);
    InputSectionElem {
        id: e.id.clone(),
        label: e.label.clone(),
        optional: e.optional,
        default: d,
        input: inp,
    }
}

/// Computes the value an input shows when its section is entered.
fn compute_seed(e: &InputSectionElem, form: &Vec<(String, String)>) -> (r: String)
    ensures
        r@ == seed_value(elem_image(*e), fv_view(form@)),
{
    let stored = form_get(form, e.id.as_str());
    let mut v: String = match stored {
        Some(s) => s.clone(),
        None => match &e.default {
            Some(d) => d.clone(),
            None => String::new(),
        },
    };
    let is_bool = matches!(&e.input, Input::Text { input_type: InputType::Boolean { .. } });
    if is_bool {
        if !str_eq(v.as_str(), "true") {
            v = "false".to_owned();
        }
    }
    v
}

/// Rebuilds the editing state for a section's elements, seeding each input
/// from the form store and writing the seeded value back to it.
fn rebuild_fields(sec: &Vec<SectionElem>, form: &mut Vec<(String, String)>) -> (r: Vec<FieldState>)
    ensures
        fields_images(r@) == seeded(sec@, fv_view(old(form)@)).0,
        fv_view(final(form)@) == seeded(sec@, fv_view(old(form)@)).1,
{
    let ghost m0 = fv_view(form@);
    let ghost target = seeded(sec@, m0);
    let n = sec.len();
    let mut out: Vec<FieldState> = Vec::new();
    let mut i: usize = 0;
    proof {
        assert(fields_images(out@) =~= Seq::<FieldImage>::empty());
    }
    while i < n
        invariant
            n == sec@.len(),
            i <= n,
            target == seeded(sec@, m0),
            target.0 == fields_images(out@) + seeded_from(sec@, fv_view(form@), i as int).0,
            target.1 == seeded_from(sec@, fv_view(form@), i as int).1,
        decreases n - i,
    {
        let ghost m_now = fv_view(form@);
        match &sec[i] {
            SectionElem::Input(ie) => {
                let v = compute_seed(ie, form);
                form_set(form, ie.id.as_str(), v.as_str());
                let elem_copy = clone_elem(ie);
                let ghost out_before = fields_images(out@);
                let field = FieldState { elem: elem_copy, value: v, error: false };
                proof {
                    assert(field_image(field) == FieldImage {
                        elem: elem_image(*ie),
                        value: seed_value(elem_image(*ie), m_now),
                        error: false,
                    });
                }
                out.push(field);
                proof {
                    let img = field_image(field);
                    assert(fields_images(out@) =~= out_before.push(img));
                    let step = seeded_from(sec@, m_now, i as int);
                    assert(step.0 == seq![img] + seeded_from(sec@, fv_view(form@), i + 1).0);
                    assert(out_before + step.0 =~= out_before.push(img) + seeded_from(
                        sec@,
                        fv_view(form@),
                        i + 1,
                    ).0);
                }
            },
            _ => {
                proof {
                    assert(seeded_from(sec@, m_now, i as int) == seeded_from(sec@, m_now, i + 1));
                }
            },
        }
        i += 1;
    }
    proof {
        assert(seeded_from(sec@, fv_view(form@), n as int).0 =~= Seq::<FieldImage>::empty());
        assert(target.0 =~= fields_images(out@));
    }
    out
}

/// One workflow session: the state machine a contributor drives through a
/// workflow, owned by the caller and mutated only through its transitions.
pub struct WorkflowSession {
    /// The workflow being walked.
    workflow: Workflow,
    /// The ordered log of visited locations and their finalized tags.
    entries: Vec<HistoryEntry>,
    /// The position in `entries` the user currently occupies.
    cursor_pos: usize,
    /// The current location: a section name, or an endpoint-prefixed name.
    loc: String,
    /// The durable id-to-value store of entered input values.
    form_values: Vec<(String, String)>,
    /// The editing state of the inputs of the current section; empty at an
    /// endpoint.
    fields: Vec<FieldState>,
}

impl WorkflowSession {
    /// The workflow being walked.
    pub closed spec fn wf(self) -> Workflow {
        self.workflow
    }

    /// The history, read as `(location, tags)` pairs.
    pub closed spec fn history_model(self) -> Seq<(Seq<char>, Seq<Seq<char>>)> {
        history_images(self.entries@)
    }

    /// The cursor into the history.
    pub closed spec fn cursor_at(self) -> int {
        self.cursor_pos as int
    }

    /// The current location.
    pub closed spec fn location(self) -> Seq<char> {
        self.loc@
    }

    /// The form value store, read at text level.
    pub closed spec fn form_model(self) -> Seq<(Seq<char>, Seq<char>)> {
        fv_view(self.form_values@)
    }

    /// The editing state of the current section, read at text level.
    pub closed spec fn fields_model(self) -> Seq<FieldImage> {
        fields_images(self.fields@)
    }

    /// The session invariant: the workflow is structurally valid, the
    /// history is never empty, the cursor stays inside it, every recorded
    /// location resolves, and the current location is the one under the
    /// cursor.
    pub closed spec fn inv(self) -> bool {
        &&& self.workflow.wf_ok()
        &&& self.entries@.len() >= 1
        &&& (self.cursor_pos as int) < self.entries@.len()
        &&& forall|i: int| 0 <= i < self.entries@.len() ==> loc_resolves(
            self.workflow,
            #[trigger] self.entries@[i].location@,
        )
        &&& self.loc@ == self.entries@[self.cursor_pos as int].location@
    }

    /// Opens a session on a valid workflow: the history starts with one
    /// entry for the starting section, the cursor on it, and the starting
    /// section's inputs seeded against an empty form store.
    pub fn new(workflow: Workflow) -> (r: Self)
        requires
            workflow.wf_ok(),
        ensures
            r.inv(),
            r.wf() == workflow,
            r.history_model() == seq![(workflow.index@, Seq::<Seq<char>>::empty())],
            r.cursor_at() == 0,
            r.location() == workflow.index@,
            r.fields_model() == seeded(
                section_of(workflow, workflow.index@),
                Seq::<(Seq<char>, Seq<char>)>::empty(),
            ).0,
            r.form_model() == seeded(
                section_of(workflow, workflow.index@),
                Seq::<(Seq<char>, Seq<char>)>::empty(),
            ).1,
    {
        let loc = workflow.index.clone();
        let mut form_values: Vec<(String, String)> = Vec::new();
        proof {
            lemma_lookup_has_key(workflow.sections@, workflow.index@);
            assert(fv_view(form_values@) =~= Seq::<(Seq<char>, Seq<char>)>::empty());
        }
        let fields = match crate::parser::alist_get(&workflow.sections, loc.as_str()) {
            Some(sec) => rebuild_fields(sec, &mut form_values),
            None => Vec::new(),
        };
        let entry = HistoryEntry { location: workflow.index.clone(), tags: Vec::new() };
        proof {
            assert(entry.tags.deep_view() =~= Seq::<Seq<char>>::empty());
        }
        let mut entries: Vec<HistoryEntry> = Vec::new();
        entries.push(entry);
        let r = WorkflowSession {
            workflow,
            entries,
            cursor_pos: 0,
            loc,
            form_values,
            fields,
        };
        proof {
            assert(r.history_model() =~= seq![(r.workflow.index@, Seq::<Seq<char>>::empty())]);
        }
        r
    }

    /// The current location: a section name, or an endpoint-prefixed name.
    pub fn current_location(&self) -> (r: &String)
        ensures
            r@ == self.location(),
    {
        &self.loc
    }

    /// The history of visited locations, oldest first.
    pub fn history(&self) -> (r: &Vec<HistoryEntry>)
        ensures
            history_images(r@) == self.history_model(),
    {
        &self.entries
    }

    /// The cursor into the history.
    pub fn cursor(&self) -> (r: usize)
        ensures
            r as int == self.cursor_at(),
    {
        self.cursor_pos
    }

    /// The stored value of the input with the given id, if any.
    pub fn form_value<'a>(&'a self, id: &str) -> (r: Option<&'a String>)
        ensures
            match r {
                Some(v) => vlookup(self.form_model(), id@) == Some(v@),
                None => vlookup(self.form_model(), id@) is None,
            },
    {
        form_get(&self.form_values, id)
    }

    /// The editing state of the current section's inputs, in section order.
    pub fn field_states(&self) -> (r: &Vec<FieldState>)
        ensures
            fields_images(r@) == self.fields_model(),
    {
        &self.fields
    }

    /// Edits an input: the shown value for `id` changes, and the store
    /// binds `id` to the new value at once, so the value survives jumping
    /// away and back. History, cursor and location stay as they are.
    pub fn edit(&mut self, id: &str, value: &str)
        requires
            old(self).inv(),
        ensures
            final(self).inv(),
            final(self).wf() == old(self).wf(),
            final(self).history_model() == old(self).history_model(),
            final(self).cursor_at() == old(self).cursor_at(),
            final(self).location() == old(self).location(),
            final(self).form_model() == vstore(old(self).form_model(), id@, value@),
            final(self).fields_model() == fields_edit(old(self).fields_model(), id@, value@),
    {
        let ghost fm0 = self.fields_model();
        let n = self.fields.len();
        let mut i: usize = 0;
        while i < n
            invariant
                n == self.fields@.len(),
                fm0 == old(self).fields_model(),
                i <= n,
                self.workflow == old(self).workflow,
                self.entries == old(self).entries,
                self.cursor_pos == old(self).cursor_pos,
                self.loc == old(self).loc,
                self.form_values == old(self).form_values,
                self.fields@.len() == fm0.len(),
                forall|j: int| i <= j < n ==> self.fields@[j] == old(self).fields@[j],
                forall|j: int| 0 <= j < i ==> field_image(#[trigger] self.fields@[j])
                    == fields_edit(fm0, id@, value@)[j],
            decreases n - i,
        {
            if str_eq(self.fields[i].elem.id.as_str(), id) {
                self.fields[i].value = value.to_owned();
            }
            i += 1;
        }
        form_set(&mut self.form_values, id, value);
        proof {
            assert(final(self).fields_model() =~= fields_edit(fm0, id@, value@));
        }
    }
    /// Renders the current location when it is an endpoint: the literal
    /// text of an instructional endpoint, or a report endpoint's
    /// interpolated template followed by the delimited block holding the
    /// encoded tag trailer. On a section there is nothing to render; a
    /// report is withheld only when its joined tag trail is too large for
    /// the encoder on this machine. Rendering is a pure read: the session
    /// is not touched.
    pub fn render_if_endpoint(&self) -> (r: Option<String>)
        requires
            self.inv(),
        ensures
            match r {
                Option::Some(t) => is_endpoint_loc(self.location()) && match lookup(
                    self.wf().endpoints@,
                    endpoint_name_of(self.location()),
                ) {
                    Option::Some(Endpoint::Instructional(txt)) => t@ == txt@,
                    Option::Some(Endpoint::Report { text, .. }) => t@ == report_text(
                        text@,
                        self.form_model(),
                        self.history_model(),
                    ),
                    Option::None => false,
                },
                Option::None => !is_endpoint_loc(self.location()) || (match lookup(
                    self.wf().endpoints@,
                    endpoint_name_of(self.location()),
                ) {
                    Option::Some(Endpoint::Report { .. }) => encode_utf8(
                        join_commas(flat_tags(self.history_model())),
                    ).len() > usize::MAX / 4,
                    _ => false,
                }),
            },
    {
        let ep_name = match match_endpoint_loc(self.loc.as_str()) {
            Some(n) => n,
            None => {
                return None;
            },
        };
        let ep = match crate::parser::alist_get(&self.workflow.endpoints, ep_name.as_str()) {
            Some(e) => e,
            None => {
                proof {
                    lemma_lookup_has_key(self.workflow.endpoints@, ep_name@);
                    assert(loc_resolves(
                        self.workflow,
                        self.entries@[self.cursor_pos as int].location@,
                    ));
                    assert(false);
                }
                return None;
            },
        };
        match ep {
            Endpoint::Instructional(txt) => Some(txt.clone()),
            Endpoint::Report { text, .. } => render_report(
                text.as_str(),
                &self.form_values,
                &self.entries,
            ),
        }
    }

    /// Jumps to a visited history entry: the cursor moves to `index` and
    /// the location becomes that entry's location. The history itself is
    /// neither shrunk nor reordered, so already-computed downstream entries
    /// survive. Entering a section rebuilds its editing state from the form
    /// store; an endpoint has none. Rebuilding writes back only seeded
    /// values, so revisiting a section whose inputs are all stored leaves
    /// the store as it is ([`lemma_jump_to_visited_keeps_store`]). An
    /// out-of-range index fails fast and changes nothing.
    pub fn jump(&mut self, index: usize) -> (r: Result<(), NavigationError>)
        requires
            old(self).inv(),
        ensures
            final(self).inv(),
            final(self).wf() == old(self).wf(),
            final(self).history_model() == old(self).history_model(),
            match r {
                Result::Err(e) => {
                    &&& e matches NavigationError::OutOfRangeJump { index: i } && i == index
                    &&& index >= old(self).history_model().len()
                    &&& *final(self) == *old(self)
                },
                Result::Ok(_) => {
                    &&& index < old(self).history_model().len()
                    &&& final(self).cursor_at() == index
                    &&& final(self).location() == old(self).history_model()[index as int].0
                    &&& if is_endpoint_loc(old(self).history_model()[index as int].0) {
                        final(self).fields_model() == Seq::<FieldImage>::empty() && final(self).form_model() == old(self).form_model()
                    } else {
                        {
                            let sm = seeded(
                                section_of(
                                    old(self).wf(),
                                    old(self).history_model()[index as int].0,
                                ),
                                old(self).form_model(),
                            );
                            final(self).fields_model() == sm.0 && final(self).form_model() == sm.1
                        }
                    }
                },
            },
    {
        if index >= self.entries.len() {
            return Err(NavigationError::OutOfRangeJump { index });
        }
        self.cursor_pos = index;
        let l = self.entries[index].location.clone();
        self.loc = l;
        proof {
            assert(old(self).history_model()[index as int].0 == self.loc@);
        }
        let ep = match_endpoint_loc(self.loc.as_str());
        if ep.is_some() {
            self.fields = Vec::new();
            proof {
                assert(self.fields_model() =~= Seq::<FieldImage>::empty());
            }
            return Ok(());
        }
        let new_fields = match crate::parser::alist_get(&self.workflow.sections, self.loc.as_str()) {
            Some(sec) => rebuild_fields(sec, &mut self.form_values),
            None => {
                proof {
                    lemma_lookup_has_key(self.workflow.sections@, self.loc@);
                    assert(loc_resolves(self.workflow, self.entries@[index as int].location@));
                    assert(false);
                }
                Vec::new()
            },
        };
        self.fields = new_fields;
        Ok(())
    }

    /// Advances through the progression at element `progression_index` of
    /// the current section. If a mandatory input is empty, nothing but the
    /// error flags changes and `Ok(false)` comes back. Otherwise the
    /// section's accumulated tags overwrite the entry under the cursor, the
    /// history is truncated there and a fresh entry for the destination is
    /// appended, the cursor steps forward, and the destination's editing
    /// state is rebuilt; `Ok(true)` comes back. A missing progression or an
    /// unresolved destination fails loudly without touching history, form
    /// store or cursor.
    pub fn advance(&mut self, progression_index: usize) -> (r: Result<bool, NavigationError>)
        requires
            old(self).inv(),
        ensures
            final(self).inv(),
            final(self).wf() == old(self).wf(),
            ({
                let sec = section_of(old(self).wf(), old(self).location());
                let no_prog = is_endpoint_loc(old(self).location()) || progression_at(
                    sec,
                    progression_index as int,
                ) is None;
                let link = prog_link(sec, progression_index as int);
                let ptags = prog_tags(sec, progression_index as int);
                let fm = old(self).fields_model();
                &&& (no_prog ==> (r matches Result::Err(NavigationError::NoSuchProgression {
                    index,
                }) && index == progression_index && *final(self) == *old(self)))
                &&& (!no_prog && any_missing(fm) ==> r == Result::<bool, NavigationError>::Ok(false)
                    && final(self).fields_model() == checked_fields(fm) && final(self).history_model()
                    == old(self).history_model() && final(self).cursor_at() == old(self).cursor_at()
                    && final(self).location() == old(self).location() && final(self).form_model()
                    == old(self).form_model())
                &&& (!no_prog && !any_missing(fm) && !loc_resolves(old(self).wf(), link) ==> (r
                    matches Result::Err(NavigationError::UnresolvedLink { link: l }) && l@ == link
                    && final(self).fields_model() == checked_fields(fm) && final(self).history_model() == old(self).history_model() && final(self).cursor_at() == old(self).cursor_at() && final(self).location() == old(self).location() && final(self).form_model() == old(self).form_model()))
                &&& (!no_prog && !any_missing(fm) && loc_resolves(old(self).wf(), link) ==> {
                    let tags = accumulated_tags(ptags, fm);
                    let c = old(self).cursor_at();
                    &&& r == Result::<bool, NavigationError>::Ok(true)
                    &&& final(self).history_model() == old(self).history_model().subrange(
                        0,
                        c + 1,
                    ).update(c, (old(self).location(), tags)).push((link, Seq::<Seq<char>>::empty()))
                    &&& final(self).cursor_at() == c + 1
                    &&& final(self).location() == link
                    &&& if is_endpoint_loc(link) {
                        final(self).fields_model() == Seq::<FieldImage>::empty() && final(self).form_model() == old(self).form_model()
                    } else {
                        {
                            let sm = seeded(section_of(old(self).wf(), link), old(self).form_model());
                            final(self).fields_model() == sm.0 && final(self).form_model() == sm.1
                        }
                    }
                })
            }),
    {
        let ghost sec_spec = section_of(old(self).wf(), old(self).location());
        let ghost fm = old(self).fields_model();
        // Resolve the progression first: a missing one is a caller bug and
        // must change nothing.
        let ep_here = match_endpoint_loc(self.loc.as_str());
        if ep_here.is_some() {
            return Err(NavigationError::NoSuchProgression { index: progression_index });
        }
        let (link, ptags) = {
            let sec = match crate::parser::alist_get(&self.workflow.sections, self.loc.as_str()) {
                Some(s) => s,
                None => {
                    proof {
                        lemma_lookup_has_key(self.workflow.sections@, self.loc@);
                        assert(loc_resolves(
                            self.workflow,
                            self.entries@[self.cursor_pos as int].location@,
                        ));
                        assert(false);
                    }
                    return Err(NavigationError::NoSuchProgression { index: progression_index });
                },
            };
            proof {
                assert(sec@ == sec_spec);
            }
            if progression_index >= sec.len() {
                return Err(NavigationError::NoSuchProgression { index: progression_index });
            }
            match &sec[progression_index] {
                SectionElem::Progression { link, tags, .. } => {
                    let l = link.clone();
                    let ts = clone_string_vec(tags);
                    proof {
                        assert(ts.deep_view() =~= tags.deep_view());
                    }
                    (l, ts)
                },
                _ => {
                    return Err(NavigationError::NoSuchProgression { index: progression_index });
                },
            }
        };
        proof {
            assert(link@ == prog_link(sec_spec, progression_index as int));
            assert(ptags.deep_view() == prog_tags(sec_spec, progression_index as int));
        }
        // Validation pass: flag every mandatory empty input; clear the
        // flags of the rest.
        let mut blocked = false;
        let n = self.fields.len();
        let mut i: usize = 0;
        while i < n
            invariant
                n == self.fields@.len(),
                i <= n,
                fm == old(self).fields_model(),
                self.workflow == old(self).workflow,
                self.entries == old(self).entries,
                self.cursor_pos == old(self).cursor_pos,
                self.loc == old(self).loc,
                self.form_values == old(self).form_values,
                self.fields@.len() == fm.len(),
                forall|j: int| i <= j < n ==> self.fields@[j] == old(self).fields@[j],
                forall|j: int| 0 <= j < i ==> field_image(#[trigger] self.fields@[j])
                    == checked_fields(fm)[j],
                blocked == exists|j: int|
                    0 <= j < i && fm[j].value.len() == 0 && !fm[j].elem.optional,
            decreases n - i,
        {
            let is_empty = self.fields[i].value.as_str().is_empty();
            let flag = is_empty && !self.fields[i].elem.optional;
            self.fields[i].error = flag;
            if flag {
                blocked = true;
            }
            proof {
                if flag {
                    assert(fm[i as int].value.len() == 0 && !fm[i as int].elem.optional);
                }
            }
            i += 1;
        }
        proof {
            assert(blocked == any_missing(fm));
            assert(self.fields_model() =~= checked_fields(fm));
        }
        if blocked {
            return Ok(false);
        }
        // The destination must resolve before anything is committed.
        let ep_link = match_endpoint_loc(link.as_str());
        let link_ok = match &ep_link {
            Some(name) => crate::parser::alist_get(&self.workflow.endpoints, name.as_str()).is_some(),
            None => crate::parser::alist_get(&self.workflow.sections, link.as_str()).is_some(),
        };
        proof {
            match ep_link {
                Some(name) => {
                    lemma_lookup_has_key(self.workflow.endpoints@, name@);
                },
                None => {
                    lemma_lookup_has_key(self.workflow.sections@, link@);
                },
            }
            assert(link_ok == loc_resolves(self.workflow, link@));
        }
        if !link_ok {
            return Err(NavigationError::UnresolvedLink { link });
        }
        // Accumulate: the progression's static tags, then each input's
        // contribution, with set semantics.
        let mut acc: Vec<String> = Vec::new();
        proof {
            assert(acc.deep_view() =~= Seq::<Seq<char>>::empty());
        }
        crate::tags::add_tag_list(&mut acc, &ptags);
        proof {
            assert(acc.deep_view() == add_all(Seq::empty(), ptags.deep_view()));
        }
        let mut i: usize = 0;
        while i < n
            invariant
                n == self.fields@.len(),
                i <= n,
                n == fm.len(),
                fm == old(self).fields_model(),
                fields_images(self.fields@) == checked_fields(fm),
                accumulated_tags(prog_tags(sec_spec, progression_index as int), fm)
                    == acc_fields_from(acc.deep_view(), fm, i as int),
            decreases n - i,
        {
            proof {
                assert(field_image(self.fields@[i as int]) == checked_fields(fm)[i as int]);
                assert(checked_fields(fm)[i as int].elem == fm[i as int].elem);
                assert(checked_fields(fm)[i as int].value == fm[i as int].value);
            }
            accumulate_input_tags(
                &mut acc,
                &self.fields[i].elem.input,
                self.fields[i].value.as_str(),
            );
            i += 1;
        }
        proof {
            assert(acc.deep_view() == accumulated_tags(
                prog_tags(sec_spec, progression_index as int),
                fm,
            ));
        }
        // Commit: truncate the history to the cursor, finalize this entry's
        // tags, append the destination, step the cursor, move.
        let ghost h0 = old(self).history_model();
        let cur = self.cursor_pos;
        let hist_len = self.entries.len();
        proof {
            assert(cur < hist_len);
        }
        self.entries.truncate(cur + 1);
        self.entries[cur].tags = acc;
        let fresh_tags: Vec<String> = Vec::new();
        proof {
            assert(fresh_tags.deep_view() =~= Seq::<Seq<char>>::empty());
        }
        self.entries.push(HistoryEntry { location: link.clone(), tags: fresh_tags });
        self.cursor_pos = cur + 1;
        self.loc = link;
        proof {
            let c = old(self).cursor_at();
            assert(self.history_model() =~= h0.subrange(0, c + 1).update(
                c,
                (old(self).location(), accumulated_tags(
                    prog_tags(sec_spec, progression_index as int),
                    fm,
                )),
            ).push((self.loc@, Seq::<Seq<char>>::empty())));
        }
        // Enter the destination.
        let ep_new = match_endpoint_loc(self.loc.as_str());
        if ep_new.is_some() {
            self.fields = Vec::new();
            proof {
                assert(self.fields_model() =~= Seq::<FieldImage>::empty());
            }
            return Ok(true);
        }
        let new_fields = match crate::parser::alist_get(&self.workflow.sections, self.loc.as_str()) {
            Some(sec) => rebuild_fields(sec, &mut self.form_values),
            None => {
                proof {
                    lemma_lookup_has_key(self.workflow.sections@, self.loc@);
                    assert(false);
                }
                Vec::new()
            },
        };
        self.fields = new_fields;
        Ok(true)
    }
}

/// The progression at element `pi` of a section, if that element is one.
pub open spec fn progression_at(sec: Seq<SectionElem>, pi: int) -> Option<
    (Seq<char>, Seq<Seq<char>>),
> {
    if 0 <= pi < sec.len() {
        match sec[pi] {
            SectionElem::Progression { link, tags, .. } => Some((link@, tags.deep_view())),
            _ => None,
        }
    } else {
        None
    }
}

/// The destination of the progression at `pi`; empty when there is none.
pub open spec fn prog_link(sec: Seq<SectionElem>, pi: int) -> Seq<char> {
    match progression_at(sec, pi) {
        Some(p) => p.0,
        None => Seq::empty(),
    }
}

/// The static tags of the progression at `pi`; empty when there is none.
pub open spec fn prog_tags(sec: Seq<SectionElem>, pi: int) -> Seq<Seq<char>> {
    match progression_at(sec, pi) {
        Some(p) => p.1,
        None => Seq::empty(),
    }
}

/// The editing state after a validation pass: every mandatory empty input
/// is flagged, every other flag is cleared; values stay.
pub open spec fn checked_fields(fs: Seq<FieldImage>) -> Seq<FieldImage> {
    fs.map(
        |i: int, f: FieldImage|
            FieldImage { elem: f.elem, value: f.value, error: f.value.len() == 0 && !f.elem.optional },
    )
}

/// Whether some mandatory input of the editing state is empty.
pub open spec fn any_missing(fs: Seq<FieldImage>) -> bool {
    exists|i: int| 0 <= i < fs.len() && fs[i].value.len() == 0 && !fs[i].elem.optional
}

/// Folds the contributions of the fields from position `i` onto `acc`.
pub open spec fn acc_fields_from(acc: Seq<Seq<char>>, fs: Seq<FieldImage>, i: int) -> Seq<Seq<char>>
    decreases fs.len() - i,
{
    if i < 0 || i >= fs.len() {
        acc
    } else {
        acc_fields_from(add_all(acc, value_tags(fs[i].elem.input, fs[i].value)), fs, i + 1)
    }
}

/// The tags an advance finalizes for the section it leaves: the
/// progression's static tags, then each input's contribution in section
/// order, with set semantics over the whole.
pub open spec fn accumulated_tags(ptags: Seq<Seq<char>>, fs: Seq<FieldImage>) -> Seq<Seq<char>> {
    acc_fields_from(add_all(Seq::empty(), ptags), fs, 0)
}

/// Folding contributions onto a distinct accumulator keeps it distinct.
proof fn lemma_acc_fields_no_dup(acc: Seq<Seq<char>>, fs: Seq<FieldImage>, i: int)
    requires
        crate::tags::no_dup(acc),
    ensures
        crate::tags::no_dup(acc_fields_from(acc, fs, i)),
    decreases fs.len() - i,
{
    if 0 <= i < fs.len() {
        crate::tags::lemma_add_all_no_dup(acc, value_tags(fs[i].elem.input, fs[i].value));
        lemma_acc_fields_no_dup(add_all(acc, value_tags(fs[i].elem.input, fs[i].value)), fs, i + 1);
    }
}

/// A folded accumulator holds a text exactly when it already held it or
/// some remaining field contributes it.
proof fn lemma_acc_fields_membership(acc: Seq<Seq<char>>, fs: Seq<FieldImage>, i: int, x: Seq<char>)
    requires
        0 <= i,
    ensures
        acc_fields_from(acc, fs, i).contains(x) <==> acc.contains(x) || exists|t: int|
            i <= t < fs.len() && value_tags(fs[t].elem.input, fs[t].value).contains(x),
    decreases fs.len() - i,
{
    if i < fs.len() {
        let acc2 = add_all(acc, value_tags(fs[i].elem.input, fs[i].value));
        crate::tags::lemma_add_all_membership(acc, value_tags(fs[i].elem.input, fs[i].value), x);
        lemma_acc_fields_membership(acc2, fs, i + 1, x);
        if value_tags(fs[i].elem.input, fs[i].value).contains(x) {
            assert(i <= i < fs.len() && value_tags(fs[i].elem.input, fs[i].value).contains(x));
        }
    }
}

/// A tag contributed twice within one section is finalized once: the tags
/// an advance records for the section it leaves hold no duplicate text.
pub proof fn lemma_accumulated_tags_no_dup(ptags: Seq<Seq<char>>, fs: Seq<FieldImage>)
    ensures
        crate::tags::no_dup(accumulated_tags(ptags, fs)),
{
    crate::tags::lemma_add_all_no_dup(Seq::empty(), ptags);
    lemma_acc_fields_no_dup(add_all(Seq::empty(), ptags), fs, 0);
}

/// The tags an advance records are exactly the contributed ones: a text is
/// recorded precisely when the progression carries it or some input of the
/// section contributes it.
pub proof fn lemma_accumulated_tags_membership(
    ptags: Seq<Seq<char>>,
    fs: Seq<FieldImage>,
    x: Seq<char>,
)
    ensures
        accumulated_tags(ptags, fs).contains(x) <==> ptags.contains(x) || exists|t: int|
            0 <= t < fs.len() && value_tags(fs[t].elem.input, fs[t].value).contains(x),
{
    crate::tags::lemma_add_all_membership(Seq::empty(), ptags, x);
    lemma_acc_fields_membership(add_all(Seq::empty(), ptags), fs, 0, x);
}

/// An edited value survives jumping away and back: a form store that reads
/// the value `v` for `id` seeds every rebuilt field for `id` with exactly
/// `v` — provided no boolean input carries `id` while `v` is neither
/// `true` nor `false`, since booleans normalize any other text away.
pub proof fn lemma_edit_survives_revisit(
    sec: Seq<SectionElem>,
    m: Seq<(Seq<char>, Seq<char>)>,
    id: Seq<char>,
    v: Seq<char>,
)
    requires
        vlookup(m, id) == Some(v),
        forall|t: int| 0 <= t < sec.len() ==> match #[trigger] sec[t] {
            SectionElem::Input(ie) => ie.id@ == id ==> (!input_image(ie.input).is_bool || v
                == "true"@ || v == "false"@),
            _ => true,
        },
    ensures
        forall|k: int|
            0 <= k < seeded(sec, m).0.len() && (#[trigger] seeded(sec, m).0[k]).elem.id == id
                ==> seeded(sec, m).0[k].value == v,
{
    lemma_seeded_from_preserves_edit(sec, m, id, v, 0);
}

/// The inductive core of [`lemma_edit_survives_revisit`], over the suffix
/// of the section from position `i`.
proof fn lemma_seeded_from_preserves_edit(
    sec: Seq<SectionElem>,
    m: Seq<(Seq<char>, Seq<char>)>,
    id: Seq<char>,
    v: Seq<char>,
    i: int,
)
    requires
        vlookup(m, id) == Some(v),
        forall|t: int| 0 <= t < sec.len() ==> match #[trigger] sec[t] {
            SectionElem::Input(ie) => ie.id@ == id ==> (!input_image(ie.input).is_bool || v
                == "true"@ || v == "false"@),
            _ => true,
        },
    ensures
        forall|k: int|
            0 <= k < seeded_from(sec, m, i).0.len() && (#[trigger] seeded_from(sec, m, i).0[k]).elem.id
                == id ==> seeded_from(sec, m, i).0[k].value == v,
    decreases sec.len() - i,
{
    if 0 <= i < sec.len() {
        match sec[i] {
            SectionElem::Input(ie) => {
                let ei = elem_image(ie);
                let sv = seed_value(ei, m);
                let m1 = vstore(m, ei.id, sv);
                if ei.id == id {
                    assert(sv == v);
                }
                crate::form::lemma_vstore_vlookup(m, ei.id, sv, id);
                assert(vlookup(m1, id) == Some(v));
                lemma_seeded_from_preserves_edit(sec, m1, id, v, i + 1);
                let head = FieldImage { elem: ei, value: sv, error: false };
                let rest = seeded_from(sec, m1, i + 1).0;
                assert forall|k: int|
                    0 <= k < seeded_from(sec, m, i).0.len() && (#[trigger] seeded_from(
                        sec,
                        m,
                        i,
                    ).0[k]).elem.id == id implies seeded_from(sec, m, i).0[k].value == v by {
                    if k == 0 {
                        assert(seeded_from(sec, m, i).0[0] == head);
                    } else {
                        assert(seeded_from(sec, m, i).0[k] == rest[k - 1]);
                    }
                }
            },
            _ => {
                lemma_seeded_from_preserves_edit(sec, m, id, v, i + 1);
            },
        }
    }
}

/// A jump never changes the form store of a section it revisits: when
/// every input of the section already has a stored value (a boolean's
/// reading `true` or `false`), re-seeding writes back only values it
/// leaves equal, so the store after the rebuild is the store before it.
pub proof fn lemma_jump_to_visited_keeps_store(
    sec: Seq<SectionElem>,
    m: Seq<(Seq<char>, Seq<char>)>,
)
    requires
        forall|t: int| 0 <= t < sec.len() ==> match #[trigger] sec[t] {
            SectionElem::Input(ie) => vlookup(m, ie.id@) is Some && (input_image(ie.input).is_bool
                ==> vlookup(m, ie.id@) == Some("true"@) || vlookup(m, ie.id@) == Some("false"@)),
            _ => true,
        },
    ensures
        seeded(sec, m).1 == m,
{
    lemma_seeded_from_keeps_store(sec, m, 0);
}

/// The inductive core of [`lemma_jump_to_visited_keeps_store`], over the
/// suffix of the section from position `i`.
proof fn lemma_seeded_from_keeps_store(
    sec: Seq<SectionElem>,
    m: Seq<(Seq<char>, Seq<char>)>,
    i: int,
)
    requires
        forall|t: int| 0 <= t < sec.len() ==> match #[trigger] sec[t] {
            SectionElem::Input(ie) => vlookup(m, ie.id@) is Some && (input_image(ie.input).is_bool
                ==> vlookup(m, ie.id@) == Some("true"@) || vlookup(m, ie.id@) == Some("false"@)),
            _ => true,
        },
    ensures
        seeded_from(sec, m, i).1 == m,
    decreases sec.len() - i,
{
    if 0 <= i < sec.len() {
        match sec[i] {
            SectionElem::Input(ie) => {
                let ei = elem_image(ie);
                let sv = seed_value(ei, m);
                assert(vlookup(m, ei.id) == Some(sv));
                crate::form::lemma_vstore_same(m, ei.id, sv);
                lemma_seeded_from_keeps_store(sec, m, i + 1);
            },
            _ => {
                lemma_seeded_from_keeps_store(sec, m, i + 1);
            },
        }
    }
}

/// The editing state after the input with id `id` is edited to `v`: that
/// input shows the new value; everything else, error flags included, stays.
pub open spec fn fields_edit(fs: Seq<FieldImage>, id: Seq<char>, v: Seq<char>) -> Seq<FieldImage> {
    fs.map(
        |i: int, f: FieldImage|
            if f.elem.id == id {
                FieldImage { elem: f.elem, value: v, error: f.error }
            } else {
                f
            },
    )
}

} // verus!
