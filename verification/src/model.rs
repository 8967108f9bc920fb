//! Language pairs and the session model: the transcript of alternating user
//! entries and translations, the selected pair, the scroll state and the copy
//! highlight, with the operations that change them.
//!
//! Every operation is stated as a function on `ModelView`, the mathematical
//! value of a session; the laws at the end of the file speak of those
//! functions.

use crate::text::{join, join_with, split, split_on, texts, to_uppercase, uppercase_of};
use crate::transcript::{
    bottom_offset, bottom_scroll, is_translation, rendered_height, resolve_row,
    shows_translation, target_line, Viewport,
};
use crate::translator::GatewayError;
use std::time::Instant;
use vstd::prelude::*;
use vstd::std_specs::cmp::PartialEqSpecImpl;

verus! {

/// A point in time of the standard library's monotonic clock. The library
/// stores such a value and hands it back; it never looks inside.
#[verifier::external_type_specification]
#[verifier::external_body]
pub struct ExInstant(std::time::Instant);

/// What stands between the parts of a label.
pub const LABEL_SEPARATOR: &'static str = " \u{2194} ";

/// The label shown for an identifier: the parts of the identifier between
/// underscores and spaces, each in upper case, joined by the separator.
pub open spec fn derive_label(id: Seq<char>) -> Seq<char> {
    join(split(id, '_', ' ').map_values(|t: Seq<char>| uppercase_of(t)), LABEL_SEPARATOR@)
}

/// Derives the label shown for an identifier.
pub fn label_for(id: &str) -> (label: String)
    ensures
        label@ == derive_label(id@),
{
    let tokens = split_on(id, '_', ' ');
    let mut upper: Vec<String> = Vec::new();
    let mut i: usize = 0;
    while i < tokens.len()
        invariant
            i <= tokens.len(),
            upper.len() == i,
            forall|j: int| 0 <= j < i ==> (#[trigger] upper@[j])@ == uppercase_of(tokens@[j]@),
        decreases tokens.len() - i,
    {
        upper.push(to_uppercase(tokens[i].as_str()));
        i = i + 1;
    }
    assert(texts(upper@) == texts(tokens@).map_values(|t: Seq<char>| uppercase_of(t)));
    join_with(&upper, LABEL_SEPARATOR)
}

/// A translation direction.
#[derive(Debug)]
pub struct LanguagePair {
    /// The identifier: the stem of the prompt file that defines the pair.
    pub name: String,
    /// The label shown for the pair, derived from the identifier.
    pub label: String,
    /// The instruction sent along with every text to translate.
    pub prompt: String,
}

/// What a language pair holds, as character sequences.
pub struct PairView {
    pub name: Seq<char>,
    pub label: Seq<char>,
    pub prompt: Seq<char>,
}

impl View for LanguagePair {
    type V = PairView;

    open spec fn view(&self) -> PairView {
        PairView { name: self.name@, label: self.label@, prompt: self.prompt@ }
    }
}

impl PairView {
    /// The pair that an identifier and a prompt determine.
    pub open spec fn of(name: Seq<char>, prompt: Seq<char>) -> PairView {
        PairView { name, label: derive_label(name), prompt }
    }

    /// Whether the label is the one derived from the identifier.
    pub open spec fn well_formed(self) -> bool {
        self.label == derive_label(self.name)
    }
}

impl LanguagePair {
    /// Builds the pair for an identifier and a prompt; the label is derived
    /// from the identifier.
    pub fn new(name: String, prompt: String) -> (pair: Self)
        ensures
            pair@ == PairView::of(name@, prompt@),
            pair.name == name,
            pair.prompt == prompt,
    {
        let label = label_for(name.as_str());
        LanguagePair { name, label, prompt }
    }
}

impl Clone for LanguagePair {
    fn clone(&self) -> (copy: Self)
        ensures
            copy == *self,
    {
        LanguagePair {
            name: self.name.clone(),
            label: self.label.clone(),
            prompt: self.prompt.clone(),
        }
    }
}

impl PartialEq for LanguagePair {
    fn eq(&self, other: &Self) -> (equal: bool) {
        self.name == other.name && self.label == other.label && self.prompt == other.prompt
    }
}

impl PartialEqSpecImpl for LanguagePair {
    open spec fn obeys_eq_spec() -> bool {
        true
    }

    open spec fn eq_spec(&self, other: &Self) -> bool {
        self@ == other@
    }
}

/// The views of a sequence of pairs.
pub open spec fn pair_views(pairs: Seq<LanguagePair>) -> Seq<PairView> {
    pairs.map_values(|p: LanguagePair| p@)
}

/// The state of one interactive session.
#[derive(Debug)]
pub struct Model {
    /// The credential sent along with every request.
    pub api_key: String,
    /// The position of the selected pair among `pairs`.
    pub current_pair_idx: usize,
    /// The language pairs to choose from.
    pub pairs: Vec<LanguagePair>,
    /// The text that the user is writing.
    pub input: String,
    /// The transcript: at even positions what the user submitted, at odd
    /// positions the reply to the entry before.
    pub messages: Vec<String>,
    /// Whether a request is out and its reply is awaited.
    pub translating: bool,
    /// The width of the terminal, kept by the front end.
    pub width: u16,
    /// The height of the terminal, kept by the front end.
    pub height: u16,
    /// The number of transcript lines above the viewport.
    pub scroll: u16,
    /// Whether the view follows the newest content.
    pub auto_scroll: bool,
    /// The first screen row of the viewport, recorded by the renderer.
    pub chat_area_y: u16,
    /// The number of rows of the viewport, recorded by the renderer.
    pub chat_area_height: u16,
    /// The text of the translation copied last.
    pub copied_message: Option<String>,
    /// The position of the translation copied last.
    pub copied_index: Option<usize>,
    /// The time of the last copy.
    pub copied_at: Option<Instant>,
}

/// A submission was refused because a translation is still under way.
#[derive(Clone, Copy, Debug, PartialEq, Eq, Structural)]
pub struct AlreadyTranslating;

/// What a session holds, as mathematical values.
pub struct ModelView {
    pub api_key: Seq<char>,
    pub current_pair_idx: nat,
    pub pairs: Seq<PairView>,
    pub input: Seq<char>,
    pub messages: Seq<Seq<char>>,
    pub translating: bool,
    pub width: u16,
    pub height: u16,
    pub scroll: u16,
    pub auto_scroll: bool,
    pub chat_area_y: u16,
    pub chat_area_height: u16,
    pub copied_message: Option<Seq<char>>,
    pub copied_index: Option<nat>,
    pub copied_at: Option<Instant>,
}

/// The index that follows `index` when cycling through `count` pairs. With no
/// pairs there is nothing to cycle through and the index stays.
pub open spec fn next_index(index: nat, count: nat) -> nat {
    if count == 0 {
        index
    } else {
        (index + 1) % count
    }
}

impl ModelView {
    /// The session as it starts: first pair selected, nothing written, nothing
    /// said, following the newest content.
    pub open spec fn initial(api_key: Seq<char>, pairs: Seq<PairView>) -> ModelView {
        ModelView {
            api_key,
            current_pair_idx: 0,
            pairs,
            input: Seq::empty(),
            messages: Seq::empty(),
            translating: false,
            width: 80,
            height: 24,
            scroll: 0,
            auto_scroll: true,
            chat_area_y: 3,
            chat_area_height: 0,
            copied_message: None,
            copied_index: None,
            copied_at: None,
        }
    }

    /// The viewport that the renderer recorded last.
    pub open spec fn viewport(self) -> Viewport {
        Viewport { top: self.chat_area_y, height: self.chat_area_height }
    }

    /// Whether the copy highlight, if there is one, marks a translation of the
    /// transcript together with its text and the time of the copy.
    pub open spec fn highlight_consistent(self) -> bool {
        match self.copied_index {
            Some(index) => {
                &&& index < self.messages.len()
                &&& is_translation(index as int)
                &&& self.copied_message == Some(self.messages[index as int])
                &&& self.copied_at is Some
            },
            None => self.copied_message is None && self.copied_at is None,
        }
    }

    /// The invariant of a session: the selected pair exists, every label is
    /// derived from its identifier, exchanges are complete whenever no
    /// translation is under way, and the copy highlight is consistent.
    pub open spec fn well_formed(self) -> bool {
        &&& self.current_pair_idx < self.pairs.len() || (self.pairs.len() == 0
            && self.current_pair_idx == 0)
        &&& forall|i: int| 0 <= i < self.pairs.len() ==> (#[trigger] self.pairs[i]).well_formed()
        &&& !self.translating ==> self.messages.len() % 2 == 0
        &&& self.highlight_consistent()
    }

    /// The state after the next pair was selected.
    pub open spec fn cycled(self) -> ModelView {
        ModelView {
            current_pair_idx: next_index(self.current_pair_idx, self.pairs.len()),
            ..self
        }
    }

    /// The state after the user submitted `text`, when no translation was under
    /// way: the text is the newest entry and its translation is awaited.
    pub open spec fn submitted(self, text: Seq<char>) -> ModelView {
        ModelView { messages: self.messages.push(text), translating: true, ..self }
    }

    /// The scroll offset after the transcript became `messages`: the bottom
    /// while the session follows the newest content, the old offset otherwise.
    pub open spec fn followed_scroll(self, messages: Seq<Seq<char>>) -> u16 {
        if self.auto_scroll {
            bottom_offset(rendered_height(messages), self.chat_area_height)
        } else {
            self.scroll
        }
    }

    /// The state after the awaited reply arrived. The reply becomes the entry
    /// paired with the pending user entry; where the transcript was cleared in
    /// the meantime there is no such entry and the reply is dropped. Either way
    /// no translation is under way afterwards.
    pub open spec fn completed(self, reply: Seq<char>) -> ModelView {
        if !self.translating {
            self
        } else if self.messages.len() % 2 == 1 {
            let messages = self.messages.push(reply);
            ModelView {
                messages,
                translating: false,
                scroll: self.followed_scroll(messages),
                ..self
            }
        } else {
            ModelView { translating: false, ..self }
        }
    }

    /// The state after the transcript was cleared.
    pub open spec fn cleared(self) -> ModelView {
        ModelView {
            messages: Seq::empty(),
            scroll: 0,
            auto_scroll: true,
            copied_message: None,
            copied_index: None,
            copied_at: None,
            ..self
        }
    }

    /// The state after the entry at `index` was copied at time `at`. Only a
    /// translation of the transcript can be copied; any other index changes
    /// nothing.
    pub open spec fn copy_recorded(self, index: nat, at: Instant) -> ModelView {
        if index < self.messages.len() && is_translation(index as int) {
            ModelView {
                copied_message: Some(self.messages[index as int]),
                copied_index: Some(index),
                copied_at: Some(at),
                ..self
            }
        } else {
            self
        }
    }

    /// The state after the user scrolled up by `lines`: the offset shrinks, not
    /// below zero, and the session stops following the newest content.
    pub open spec fn scrolled_up(self, lines: u16) -> ModelView {
        ModelView {
            scroll: if lines >= self.scroll {
                0u16
            } else {
                (self.scroll - lines) as u16
            },
            auto_scroll: false,
            ..self
        }
    }

    /// The state after the user scrolled down by `lines`: the offset grows, not
    /// past the bottom, and a session that reaches the bottom follows the
    /// newest content again.
    pub open spec fn scrolled_down(self, lines: u16) -> ModelView {
        let bottom = bottom_offset(rendered_height(self.messages), self.chat_area_height);
        if self.scroll + lines >= bottom {
            ModelView { scroll: bottom, auto_scroll: true, ..self }
        } else {
            ModelView { scroll: (self.scroll + lines) as u16, auto_scroll: false, ..self }
        }
    }
}

/// The text that takes the place of the translation once a request is over:
/// the translation itself, or the message of the failure.
pub open spec fn reply_text(outcome: Result<String, GatewayError>) -> Seq<char> {
    match outcome {
        Ok(translation) => translation@,
        Err(error) => error.message_text(),
    }
}

/// The character content of an optional string.
pub open spec fn optional_text(s: Option<String>) -> Option<Seq<char>> {
    match s {
        Some(s) => Some(s@),
        None => None,
    }
}

/// An optional index as a natural number.
pub open spec fn optional_index(i: Option<usize>) -> Option<nat> {
    match i {
        Some(i) => Some(i as nat),
        None => None,
    }
}

impl View for Model {
    type V = ModelView;

    open spec fn view(&self) -> ModelView {
        ModelView {
            api_key: self.api_key@,
            current_pair_idx: self.current_pair_idx as nat,
            pairs: pair_views(self.pairs@),
            input: self.input@,
            messages: texts(self.messages@),
            translating: self.translating,
            width: self.width,
            height: self.height,
            scroll: self.scroll,
            auto_scroll: self.auto_scroll,
            chat_area_y: self.chat_area_y,
            chat_area_height: self.chat_area_height,
            copied_message: optional_text(self.copied_message),
            copied_index: optional_index(self.copied_index),
            copied_at: self.copied_at,
        }
    }
}

impl Model {
    /// Starts a session with a credential and the pairs to choose from.
    pub fn new(api_key: String, pairs: Vec<LanguagePair>) -> (model: Self)
        ensures
            model@ == ModelView::initial(api_key@, pair_views(pairs@)),
            model.pairs == pairs,
            model.api_key == api_key,
            (forall|i: int| 0 <= i < pairs.len() ==> (#[trigger] pairs@[i])@.well_formed())
                ==> model@.well_formed(),
    {
        let model = Model {
            api_key,
            current_pair_idx: 0,
            pairs,
            input: String::new(),
            messages: Vec::new(),
            translating: false,
            width: 80,
            height: 24,
            scroll: 0,
            auto_scroll: true,
            chat_area_y: 3,
            chat_area_height: 0,
            copied_message: None,
            copied_index: None,
            copied_at: None,
        };
        assert(texts(model.messages@) == Seq::<Seq<char>>::empty());
        model
    }

    /// Selects the next pair, going back to the first after the last. With no
    /// pairs nothing changes.
    pub fn next_pair(&mut self)
        ensures
            final(self)@ == old(self)@.cycled(),
            old(self)@.well_formed() ==> final(self)@.well_formed(),
            final(self).pairs == old(self).pairs,
            final(self).messages == old(self).messages,
    {
        proof {
            if self@.well_formed() {
                lemma_operations_keep_well_formed(self@, Seq::empty(), 0, arbitrary(), 0);
            }
        }
        let count = self.pairs.len();
        if count > 0 {
            assert(((self.current_pair_idx % count) + 1) % (count as int) == (
            self.current_pair_idx + 1) % (count as int)) by {
                vstd::arithmetic::div_mod::lemma_add_mod_noop(
                    self.current_pair_idx as int,
                    1,
                    count as int,
                );
                vstd::arithmetic::div_mod::lemma_mod_twice(
                    self.current_pair_idx as int,
                    count as int,
                );
                vstd::arithmetic::div_mod::lemma_add_mod_noop(
                    (self.current_pair_idx % count) as int,
                    1,
                    count as int,
                );
            }
            self.current_pair_idx = (self.current_pair_idx % count + 1) % count;
        }
    }

    /// The selected pair.
    pub fn current_pair(&self) -> (pair: &LanguagePair)
        requires
            self.current_pair_idx < self.pairs.len(),
        ensures
            *pair == self.pairs@[self.current_pair_idx as int],
    {
        &self.pairs[self.current_pair_idx]
    }

    /// The viewport that the renderer recorded last.
    pub fn viewport(&self) -> (viewport: Viewport)
        ensures
            viewport == self@.viewport(),
    {
        Viewport { top: self.chat_area_y, height: self.chat_area_height }
    }

    /// Finds the translation drawn on a screen row, with its position in the
    /// transcript, or `None` where the row shows no translation.
    pub fn get_translation_at(&self, row: u16) -> (found: Option<(usize, String)>)
        ensures
            !self@.viewport().contains(row) ==> found is None,
            self@.viewport().contains(row) ==> match found {
                Some((index, text)) => {
                    &&& shows_translation(
                        self@.messages,
                        index as int,
                        target_line(self@.viewport(), self.scroll, row),
                    )
                    &&& text@ == self@.messages[index as int]
                },
                None => forall|i: int|
                    !shows_translation(
                        self@.messages,
                        i,
                        target_line(self@.viewport(), self.scroll, row),
                    ),
            },
    {
        resolve_row(&self.messages, self.viewport(), self.scroll, row)
    }

    /// Takes a text to translate. While a translation is under way the text is
    /// refused and nothing changes; otherwise it becomes the newest entry of
    /// the transcript and its translation is awaited.
    pub fn submit(&mut self, text: String) -> (accepted: Result<(), AlreadyTranslating>)
        ensures
            old(self).translating ==> accepted is Err && *final(self) == *old(self),
            !old(self).translating ==> accepted is Ok && final(self)@ == old(self)@.submitted(
                text@,
            ),
            old(self)@.well_formed() ==> final(self)@.well_formed(),
            final(self).pairs == old(self).pairs,
    {
        proof {
            if self@.well_formed() {
                lemma_operations_keep_well_formed(self@, text@, 0, arbitrary(), 0);
            }
        }
        if self.translating {
            return Err(AlreadyTranslating);
        }
        let ghost before = texts(self.messages@);
        self.messages.push(text);
        self.translating = true;
        assert(texts(self.messages@) == before.push(text@));
        Ok(())
    }

    /// Takes the reply to the pending submission: the translation, or the text
    /// shown in its place when the gateway failed. Returns whether a
    /// translation was under way; if none was, nothing changes.
    pub fn complete_exchange(&mut self, reply: String) -> (was_pending: bool)
        ensures
            was_pending == old(self).translating,
            final(self)@ == old(self)@.completed(reply@),
            !final(self).translating,
            old(self)@.well_formed() ==> final(self)@.well_formed(),
            final(self).pairs == old(self).pairs,
    {
        proof {
            if self@.well_formed() {
                lemma_operations_keep_well_formed(self@, reply@, 0, arbitrary(), 0);
            }
        }
        if !self.translating {
            return false;
        }
        self.translating = false;
        if self.messages.len() % 2 == 1 {
            let ghost before = texts(self.messages@);
            self.messages.push(reply);
            assert(texts(self.messages@) == before.push(reply@));
            if self.auto_scroll {
                self.scroll = bottom_scroll(&self.messages, self.chat_area_height);
            }
        }
        true
    }

    /// Takes the outcome of the pending request. A failure is shown to the user
    /// in place of the translation, so the session never stays waiting.
    pub fn finish_exchange(&mut self, outcome: Result<String, GatewayError>) -> (was_pending:
        bool)
        ensures
            was_pending == old(self).translating,
            final(self)@ == old(self)@.completed(reply_text(outcome)),
            !final(self).translating,
            old(self)@.well_formed() ==> final(self)@.well_formed(),
            final(self).pairs == old(self).pairs,
    {
        let reply = match outcome {
            Ok(translation) => translation,
            Err(error) => error.message(),
        };
        self.complete_exchange(reply)
    }

    /// Empties the transcript, scrolls back to the top, removes the copy
    /// highlight and follows the newest content again.
    pub fn clear_transcript(&mut self)
        ensures
            final(self)@ == old(self)@.cleared(),
            old(self)@.well_formed() ==> final(self)@.well_formed(),
            final(self).pairs == old(self).pairs,
    {
        proof {
            if self@.well_formed() {
                lemma_operations_keep_well_formed(self@, Seq::empty(), 0, arbitrary(), 0);
            }
        }
        self.messages = Vec::new();
        self.scroll = 0;
        self.auto_scroll = true;
        self.copied_message = None;
        self.copied_index = None;
        self.copied_at = None;
        assert(texts(self.messages@) == Seq::<Seq<char>>::empty());
    }

    /// Marks the translation at `index` as copied at time `now`. An index that
    /// is not that of a translation of the transcript changes nothing.
    pub fn record_copy(&mut self, index: usize, now: Instant)
        ensures
            final(self)@ == old(self)@.copy_recorded(index as nat, now),
            old(self)@.well_formed() ==> final(self)@.well_formed(),
            final(self).pairs == old(self).pairs,
            final(self).messages == old(self).messages,
    {
        proof {
            if self@.well_formed() {
                lemma_operations_keep_well_formed(self@, Seq::empty(), index as nat, now, 0);
            }
        }
        if index < self.messages.len() && index % 2 == 1 {
            self.copied_message = Some(self.messages[index].clone());
            self.copied_index = Some(index);
            self.copied_at = Some(now);
        }
    }

    /// Scrolls up by `lines` at the user's request.
    pub fn scroll_up(&mut self, lines: u16)
        ensures
            final(self)@ == old(self)@.scrolled_up(lines),
            old(self)@.well_formed() ==> final(self)@.well_formed(),
            final(self).pairs == old(self).pairs,
            final(self).messages == old(self).messages,
    {
        proof {
            if self@.well_formed() {
                lemma_operations_keep_well_formed(self@, Seq::empty(), 0, arbitrary(), lines);
            }
        }
        self.scroll = if lines >= self.scroll {
            0
        } else {
            self.scroll - lines
        };
        self.auto_scroll = false;
    }

    /// Scrolls down by `lines` at the user's request.
    pub fn scroll_down(&mut self, lines: u16)
        ensures
            final(self)@ == old(self)@.scrolled_down(lines),
            old(self)@.well_formed() ==> final(self)@.well_formed(),
            final(self).pairs == old(self).pairs,
            final(self).messages == old(self).messages,
    {
        proof {
            if self@.well_formed() {
                lemma_operations_keep_well_formed(self@, Seq::empty(), 0, arbitrary(), lines);
            }
        }
        let bottom = bottom_scroll(&self.messages, self.chat_area_height);
        if lines >= bottom || self.scroll >= bottom - lines {
            self.scroll = bottom;
            self.auto_scroll = true;
        } else {
            self.scroll = self.scroll + lines;
            self.auto_scroll = false;
        }
    }
}

/// The index reached from `index` by cycling `times` times through `count`
/// pairs.
pub open spec fn cycle_times(index: nat, count: nat, times: nat) -> nat
    decreases times,
{
    if times == 0 {
        index
    } else {
        next_index(cycle_times(index, count, (times - 1) as nat), count)
    }
}

impl ModelView {
    /// The state after one complete exchange: `source` was submitted and
    /// `translation` came back for it.
    pub open spec fn exchanged(self, source: Seq<char>, translation: Seq<char>) -> ModelView {
        self.submitted(source).completed(translation)
    }

    /// The state after a run of complete exchanges, each given as the source
    /// text and its translation.
    pub open spec fn after_exchanges(
        self,
        exchanges: Seq<(Seq<char>, Seq<char>)>,
    ) -> ModelView
        decreases exchanges.len(),
    {
        if exchanges.len() == 0 {
            self
        } else {
            self.after_exchanges(exchanges.drop_last()).exchanged(
                exchanges.last().0,
                exchanges.last().1,
            )
        }
    }
}

/// Two pairs with the same identifier and derived labels have the same label:
/// the label depends on nothing but the identifier.
pub proof fn lemma_label_determined_by_name(a: PairView, b: PairView)
    requires
        a.well_formed(),
        b.well_formed(),
        a.name == b.name,
    ensures
        a.label == b.label,
{
}

/// A session starts well formed when the labels of its pairs are derived.
pub proof fn lemma_initial_well_formed(api_key: Seq<char>, pairs: Seq<PairView>)
    requires
        forall|i: int| 0 <= i < pairs.len() ==> (#[trigger] pairs[i]).well_formed(),
    ensures
        ModelView::initial(api_key, pairs).well_formed(),
{
}

/// Every operation of a session keeps it well formed. A submission does so
/// when it is accepted, that is when no translation is under way.
pub proof fn lemma_operations_keep_well_formed(
    m: ModelView,
    text: Seq<char>,
    index: nat,
    at: Instant,
    lines: u16,
)
    requires
        m.well_formed(),
    ensures
        m.cycled().well_formed(),
        !m.translating ==> m.submitted(text).well_formed(),
        m.completed(text).well_formed(),
        m.cleared().well_formed(),
        m.copy_recorded(index, at).well_formed(),
        m.scrolled_up(lines).well_formed(),
        m.scrolled_down(lines).well_formed(),
{
    if m.pairs.len() > 0 {
        assert(next_index(m.current_pair_idx, m.pairs.len()) < m.pairs.len()) by {
            vstd::arithmetic::div_mod::lemma_mod_bound(
                (m.current_pair_idx + 1) as int,
                m.pairs.len() as int,
            );
        }
    }
}

/// Cycling `times` times through `count` pairs moves the index forward by
/// `times`, wrapping around at `count`.
pub proof fn lemma_cycle_times(index: nat, count: nat, times: nat)
    requires
        count > 0,
        index < count,
    ensures
        cycle_times(index, count, times) == (index + times) % count,
    decreases times,
{
    if times == 0 {
        vstd::arithmetic::div_mod::lemma_small_mod(index, count);
    } else {
        lemma_cycle_times(index, count, (times - 1) as nat);
        vstd::arithmetic::div_mod::lemma_add_mod_noop(
            (index + times - 1) as int,
            1,
            count as int,
        );
        vstd::arithmetic::div_mod::lemma_mod_twice((index + times - 1) as int, count as int);
        if count == 1 {
            assert((index + times) % count == 0);
            assert(next_index(cycle_times(index, count, (times - 1) as nat), count) == 0);
        } else {
            vstd::arithmetic::div_mod::lemma_small_mod(1, count);
        }
    }
}

/// Cycling through all pairs once returns to the pair that was selected, and
/// with no pairs cycling leaves the index where it is.
pub proof fn lemma_full_cycle_returns(index: nat, count: nat)
    ensures
        index < count ==> cycle_times(index, count, count) == index,
        forall|times: nat| cycle_times(index, 0, times) == index,
{
    if index < count {
        lemma_cycle_times(index, count, count);
        vstd::arithmetic::div_mod::lemma_mod_add_multiples_vanish(index as int, count as int);
        vstd::arithmetic::div_mod::lemma_small_mod(index, count);
    }
    assert forall|times: nat| cycle_times(index, 0, times) == index by {
        lemma_cycle_empty(index, times);
    }
}

/// With no pairs, cycling any number of times leaves the index where it is.
pub proof fn lemma_cycle_empty(index: nat, times: nat)
    ensures
        cycle_times(index, 0, times) == index,
    decreases times,
{
    if times > 0 {
        lemma_cycle_empty(index, (times - 1) as nat);
    }
}

/// After any run of complete exchanges that starts at rest, the session is at
/// rest again and the transcript has grown by two entries per exchange: what
/// was there stays in place, and each exchange follows as the source text at
/// an even distance and its translation right after it.
pub proof fn lemma_exchanges_alternate(m: ModelView, exchanges: Seq<(Seq<char>, Seq<char>)>)
    requires
        !m.translating,
        m.messages.len() % 2 == 0,
    ensures
        !m.after_exchanges(exchanges).translating,
        m.after_exchanges(exchanges).messages.len() == m.messages.len() + 2 * exchanges.len(),
        m.after_exchanges(exchanges).messages.len() % 2 == 0,
        m.after_exchanges(exchanges).messages.take(m.messages.len() as int) == m.messages,
        forall|k: int|
            #![trigger exchanges[k]]
            0 <= k < exchanges.len() ==> {
                &&& m.after_exchanges(exchanges).messages[m.messages.len() + 2 * k]
                    == exchanges[k].0
                &&& m.after_exchanges(exchanges).messages[m.messages.len() + 2 * k + 1]
                    == exchanges[k].1
            },
    decreases exchanges.len(),
{
    if exchanges.len() > 0 {
        let earlier = exchanges.drop_last();
        lemma_exchanges_alternate(m, earlier);
        let before = m.after_exchanges(earlier);
        let after = m.after_exchanges(exchanges);
        assert(after.messages == before.messages.push(exchanges.last().0).push(
            exchanges.last().1,
        ));
        assert forall|k: int| #![trigger exchanges[k]] 0 <= k < exchanges.len() implies {
            &&& after.messages[m.messages.len() + 2 * k] == exchanges[k].0
            &&& after.messages[m.messages.len() + 2 * k + 1] == exchanges[k].1
        } by {
            if k < earlier.len() {
                assert(earlier[k] == exchanges[k]);
            }
        }
    }
}

/// Nothing but a clear takes an entry out of the transcript or moves it: after
/// every other operation the transcript begins with what it held before.
pub proof fn lemma_transcript_only_grows(
    m: ModelView,
    text: Seq<char>,
    index: nat,
    at: Instant,
    lines: u16,
)
    ensures
        m.messages.is_prefix_of(m.cycled().messages),
        m.messages.is_prefix_of(m.submitted(text).messages),
        m.messages.is_prefix_of(m.completed(text).messages),
        m.messages.is_prefix_of(m.copy_recorded(index, at).messages),
        m.messages.is_prefix_of(m.scrolled_up(lines).messages),
        m.messages.is_prefix_of(m.scrolled_down(lines).messages),
{
}

/// After the transcript was cleared the offset is zero and no row of the
/// screen shows a translation, whatever the session held before.
pub proof fn lemma_cleared_shows_nothing(m: ModelView, row: u16, index: int)
    ensures
        m.cleared().scroll == 0,
        !shows_translation(
            m.cleared().messages,
            index,
            target_line(m.cleared().viewport(), m.cleared().scroll, row),
        ),
{
}

} // verus!
