//! The registry of language pairs: which files of the configuration directory
//! are prompts, the pair that each one gives, the built-in pairs that stand in
//! when there is none, and the order in which the pairs are offered.

use crate::model::{pair_views, LanguagePair, PairView};
use crate::text::{
    ascii_folded, chars_of, comes_before, eq_ignore_ascii_case, eq_ignoring_ascii_case,
    lemma_precedes_asymmetric, lemma_precedes_between, lemma_trimmed, precedes, trim, trimmed,
};
use vstd::prelude::*;

verus! {

/// The extension of a prompt file.
pub const PROMPT_EXTENSION: &'static str = "md";

/// The file stem that never names a pair, in whatever case it is written.
pub const RESERVED_STEM: &'static str = "readme";

/// The identifier of the built-in pair for Spanish and English.
pub const SPANISH_ENGLISH: &'static str = "es_en";

/// The identifier of the built-in pair for Portuguese and English.
pub const PORTUGUESE_ENGLISH: &'static str = "pt_en";

/// The file that holds the built-in prompt for Spanish and English.
pub const SPANISH_ENGLISH_FILE: &'static str = "es_en.md";

/// The file that holds the built-in prompt for Portuguese and English.
pub const PORTUGUESE_ENGLISH_FILE: &'static str = "pt_en.md";

/// The built-in prompt for Spanish and English.
pub const SPANISH_ENGLISH_PROMPT: &'static str =
    "You are a translator between Spanish and English.\n\nWhen the user writes in Spanish, answer with the English translation. When the user writes in English, answer with the Spanish translation.\n\nAnswer with the translation only: no explanations, no notes, no quotation marks. Keep the tone, the register and the line breaks of the text.\n";

/// The built-in prompt for Portuguese and English.
pub const PORTUGUESE_ENGLISH_PROMPT: &'static str =
    "You are a translator between Portuguese and English.\n\nWhen the user writes in Portuguese, answer with the English translation. When the user writes in English, answer with the Portuguese translation.\n\nAnswer with the translation only: no explanations, no notes, no quotation marks. Keep the tone, the register and the line breaks of the text.\n";

/// The position of the last dot of a file name, or -1 where it has none.
pub open spec fn last_dot(name: Seq<char>) -> int
    decreases name.len(),
{
    if name.len() == 0 {
        -1
    } else if name.last() == '.' {
        name.len() - 1
    } else {
        last_dot(name.drop_last())
    }
}

/// The stem of a file name: what stands before its last dot. A name without a
/// dot, or with its only dot in front, is its own stem.
pub open spec fn file_stem(name: Seq<char>) -> Seq<char> {
    if last_dot(name) <= 0 {
        name
    } else {
        name.take(last_dot(name))
    }
}

/// The extension of a file name: what stands after its last dot. A name
/// without a dot, or with its only dot in front, has none.
pub open spec fn file_extension(name: Seq<char>) -> Option<Seq<char>> {
    if last_dot(name) <= 0 {
        None
    } else {
        Some(name.skip(last_dot(name) + 1))
    }
}

/// Whether a file stem is the reserved one.
pub open spec fn is_reserved(stem: Seq<char>) -> bool {
    eq_ignoring_ascii_case(stem, RESERVED_STEM@)
}

/// The identifier of the pair that a file of the configuration directory
/// defines: its stem, where the extension is that of a prompt file and the
/// stem is not reserved. Other files define no pair.
pub open spec fn prompt_identifier(name: Seq<char>) -> Option<Seq<char>> {
    if file_extension(name) == Some(PROMPT_EXTENSION@) && !is_reserved(file_stem(name)) {
        Some(file_stem(name))
    } else {
        None
    }
}

fn find_last_dot(chars: &Vec<char>) -> (dot: Option<usize>)
    ensures
        match dot {
            Some(i) => last_dot(chars@) == i && i < chars.len(),
            None => last_dot(chars@) == -1,
        },
{
    let mut i: usize = chars.len();
    assert(chars@.take(i as int) == chars@);
    while i > 0
        invariant
            i <= chars.len(),
            last_dot(chars@) == last_dot(chars@.take(i as int)),
        decreases i,
    {
        if chars[i - 1] == '.' {
            return Some(i - 1);
        }
        assert(chars@.take(i as int).drop_last() == chars@.take(i - 1));
        i = i - 1;
    }
    None
}

/// Decides whether a file of the configuration directory is a prompt file,
/// and if so which pair it names.
pub fn identify_prompt(file_name: &str) -> (identifier: Option<String>)
    ensures
        match identifier {
            Some(id) => prompt_identifier(file_name@) == Some(id@),
            None => prompt_identifier(file_name@) is None,
        },
{
    let chars = chars_of(file_name);
    let n = chars.len();
    match find_last_dot(&chars) {
        None => None,
        Some(dot) => {
            if dot == 0 {
                return None;
            }
            let extension = file_name.substring_char(dot + 1, n);
            assert(extension@ == file_name@.skip(dot + 1));
            if extension.to_owned() != String::from_str(PROMPT_EXTENSION) {
                return None;
            }
            let stem = file_name.substring_char(0, dot);
            assert(stem@ == file_name@.take(dot as int));
            if eq_ignore_ascii_case(stem, RESERVED_STEM) {
                return None;
            }
            Some(stem.to_owned())
        },
    }
}

/// A file of the configuration directory: its name and what it holds.
#[derive(Debug, PartialEq, Eq)]
pub struct PromptFile {
    pub file_name: String,
    pub contents: String,
}

/// A file as character sequences.
pub struct PromptFileView {
    pub file_name: Seq<char>,
    pub contents: Seq<char>,
}

impl View for PromptFile {
    type V = PromptFileView;

    open spec fn view(&self) -> PromptFileView {
        PromptFileView { file_name: self.file_name@, contents: self.contents@ }
    }
}

impl Clone for PromptFile {
    fn clone(&self) -> (copy: Self)
        ensures
            copy == *self,
    {
        PromptFile { file_name: self.file_name.clone(), contents: self.contents.clone() }
    }
}

/// The views of a sequence of files.
pub open spec fn file_views(files: Seq<PromptFile>) -> Seq<PromptFileView> {
    files.map_values(|f: PromptFile| f@)
}

/// The pair that a file of the configuration directory defines: a prompt
/// file defines the pair named by its stem, with what the file holds, without
/// the white space around it, as prompt. A file that is no prompt file
/// defines no pair, and neither does a prompt file that holds nothing but
/// white space: a pair without a prompt is never offered.
pub open spec fn pair_of(file: PromptFileView) -> Option<PairView> {
    match prompt_identifier(file.file_name) {
        Some(id) => if trimmed(file.contents).len() > 0 {
            Some(PairView::of(id, trimmed(file.contents)))
        } else {
            None
        },
        None => None,
    }
}

/// The pairs that the files of a directory define, in the order of the files.
pub open spec fn pairs_of(files: Seq<PromptFileView>) -> Seq<PairView>
    decreases files.len(),
{
    if files.len() == 0 {
        Seq::empty()
    } else {
        let earlier = pairs_of(files.drop_last());
        match pair_of(files.last()) {
            Some(pair) => earlier.push(pair),
            None => earlier,
        }
    }
}

/// The two built-in pairs.
pub open spec fn default_pairs() -> Seq<PairView> {
    seq![
        PairView::of(SPANISH_ENGLISH@, trimmed(SPANISH_ENGLISH_PROMPT@)),
        PairView::of(PORTUGUESE_ENGLISH@, trimmed(PORTUGUESE_ENGLISH_PROMPT@)),
    ]
}

/// The files that make the built-in pairs editable: one per pair, holding the
/// built-in prompt as it is.
pub open spec fn default_files() -> Seq<PromptFileView> {
    seq![
        PromptFileView { file_name: SPANISH_ENGLISH_FILE@, contents: SPANISH_ENGLISH_PROMPT@ },
        PromptFileView {
            file_name: PORTUGUESE_ENGLISH_FILE@,
            contents: PORTUGUESE_ENGLISH_PROMPT@,
        },
    ]
}

/// A sequence of pairs ordered by identifier, with `pair` put behind the last
/// pair that does not come after it.
pub open spec fn inserted(ordered: Seq<PairView>, pair: PairView) -> Seq<PairView>
    decreases ordered.len(),
{
    if ordered.len() > 0 && precedes(pair.name, ordered.last().name) {
        inserted(ordered.drop_last(), pair).push(ordered.last())
    } else {
        ordered.push(pair)
    }
}

/// The pairs in ascending order of their identifiers; pairs with the same
/// identifier keep the order they came in.
pub open spec fn sorted_by_name(pairs: Seq<PairView>) -> Seq<PairView>
    decreases pairs.len(),
{
    if pairs.len() == 0 {
        Seq::empty()
    } else {
        inserted(sorted_by_name(pairs.drop_last()), pairs.last())
    }
}

/// Whether a sequence of pairs holds a pair whose identifier is `name` but
/// for the case of its ASCII letters.
pub open spec fn holds_name_like(pairs: Seq<PairView>, name: Seq<char>) -> bool {
    exists|i: int| 0 <= i < pairs.len() && eq_ignoring_ascii_case((#[trigger] pairs[i]).name, name)
}

/// The pairs with one pair for every identifier: of pairs whose identifiers
/// differ in nothing but the case of their ASCII letters, the first stays and
/// the others are left out.
pub open spec fn distinct_by_name(pairs: Seq<PairView>) -> Seq<PairView>
    decreases pairs.len(),
{
    if pairs.len() == 0 {
        Seq::empty()
    } else {
        let kept = distinct_by_name(pairs.drop_last());
        if holds_name_like(kept, pairs.last().name) {
            kept
        } else {
            kept.push(pairs.last())
        }
    }
}

/// Whether the files of a directory define no pair at all.
pub open spec fn needs_defaults(files: Seq<PromptFileView>) -> bool {
    pairs_of(files).len() == 0
}

/// The pairs that a load starts from: those that the files define, or the
/// built-in pairs where they define none.
pub open spec fn found_pairs(files: Seq<PromptFileView>) -> Seq<PairView> {
    if needs_defaults(files) {
        default_pairs()
    } else {
        pairs_of(files)
    }
}

/// The pairs that a directory offers: those that its files define, or the
/// built-in pairs where they define none, in ascending order of identifier
/// and with one pair for every identifier.
pub open spec fn registry_of(files: Seq<PromptFileView>) -> Seq<PairView> {
    distinct_by_name(sorted_by_name(found_pairs(files)))
}

/// The files to write after a load: the built-in prompts where the directory
/// defined no pair, nothing otherwise.
pub open spec fn files_to_write(files: Seq<PromptFileView>) -> Seq<PromptFileView> {
    if needs_defaults(files) {
        default_files()
    } else {
        Seq::empty()
    }
}

/// Whether no pair of a sequence comes after a later one.
pub open spec fn ordered_by_name(pairs: Seq<PairView>) -> bool {
    forall|i: int, j: int|
        0 <= i < j < pairs.len() ==> !precedes(
            (#[trigger] pairs[j]).name,
            (#[trigger] pairs[i]).name,
        )
}

/// Whether no two pairs of a sequence have the same identifier, the case of
/// ASCII letters left aside.
pub open spec fn distinct_names(pairs: Seq<PairView>) -> bool {
    forall|i: int, j: int|
        0 <= i < j < pairs.len() ==> !eq_ignoring_ascii_case(
            (#[trigger] pairs[i]).name,
            (#[trigger] pairs[j]).name,
        )
}

/// Whether a pair is fit to be offered: its label is derived from its
/// identifier, its prompt holds something and has no white space around it,
/// and it is not named by the reserved stem.
pub open spec fn offerable(pair: PairView) -> bool {
    &&& pair.well_formed()
    &&& pair.prompt.len() > 0
    &&& trimmed(pair.prompt) == pair.prompt
    &&& !is_reserved(pair.name)
}

/// What a load of the registry gives: the pairs to offer and the files that
/// the caller is to write into the configuration directory.
#[derive(Debug)]
pub struct LoadedPrompts {
    pub pairs: Vec<LanguagePair>,
    pub materialize: Vec<PromptFile>,
}

/// Where `pair` goes in `ordered`: behind everything that does not come after
/// it.
proof fn lemma_inserted_at(ordered: Seq<PairView>, pair: PairView, position: int)
    requires
        0 <= position <= ordered.len(),
        forall|j: int| position <= j < ordered.len() ==> precedes(pair.name, ordered[j].name),
        position > 0 ==> !precedes(pair.name, ordered[position - 1].name),
    ensures
        inserted(ordered, pair) == ordered.insert(position, pair),
    decreases ordered.len(),
{
    if position < ordered.len() {
        let shorter = ordered.drop_last();
        lemma_inserted_at(shorter, pair, position);
        assert(shorter.insert(position, pair).push(ordered.last()) == ordered.insert(
            position,
            pair,
        ));
    } else {
        assert(ordered.insert(position, pair) == ordered.push(pair));
    }
}

/// Puts a pair into a vector ordered by identifier.
fn insert_ordered(ordered: &mut Vec<LanguagePair>, pair: LanguagePair)
    ensures
        pair_views(final(ordered)@) == inserted(pair_views(old(ordered)@), pair@),
{
    let ghost before = pair_views(ordered@);
    let mut position: usize = ordered.len();
    while position > 0 && comes_before(pair.name.as_str(), ordered[position - 1].name.as_str())
        invariant
            position <= ordered.len(),
            before == pair_views(ordered@),
            forall|j: int|
                position <= j < ordered.len() ==> precedes(pair@.name, (#[trigger] before[j]).name),
        decreases position,
    {
        position = position - 1;
    }
    proof {
        lemma_inserted_at(before, pair@, position as int);
    }
    ordered.insert(position, pair);
    assert(pair_views(ordered@) == before.insert(position as int, pair@));
}

/// Tells whether a vector of pairs holds a pair whose identifier is `name`
/// but for the case of its ASCII letters.
fn holds_like(pairs: &Vec<LanguagePair>, name: &str) -> (found: bool)
    ensures
        found == holds_name_like(pair_views(pairs@), name@),
{
    let mut i: usize = 0;
    while i < pairs.len()
        invariant
            i <= pairs.len(),
            forall|k: int|
                0 <= k < i ==> !eq_ignoring_ascii_case(
                    (#[trigger] pair_views(pairs@)[k]).name,
                    name@,
                ),
        decreases pairs.len() - i,
    {
        if eq_ignore_ascii_case(pairs[i].name.as_str(), name) {
            assert(eq_ignoring_ascii_case(pair_views(pairs@)[i as int].name, name@));
            return true;
        }
        i = i + 1;
    }
    false
}

/// Leaves out every pair whose identifier an earlier pair has already, the
/// case of ASCII letters left aside.
fn keep_distinct(pairs: Vec<LanguagePair>) -> (kept: Vec<LanguagePair>)
    ensures
        pair_views(kept@) == distinct_by_name(pair_views(pairs@)),
{
    let ghost all = pair_views(pairs@);
    let mut kept: Vec<LanguagePair> = Vec::new();
    let mut i: usize = 0;
    assert(all.take(0) == Seq::<PairView>::empty());
    assert(pair_views(kept@) == Seq::<PairView>::empty());
    while i < pairs.len()
        invariant
            i <= pairs.len(),
            all == pair_views(pairs@),
            pair_views(kept@) == distinct_by_name(all.take(i as int)),
        decreases pairs.len() - i,
    {
        proof {
            assert(all.take(i + 1).drop_last() == all.take(i as int));
            assert(all.take(i + 1).last() == pairs@[i as int]@);
        }
        if !holds_like(&kept, pairs[i].name.as_str()) {
            let ghost before = pair_views(kept@);
            kept.push(pairs[i].clone());
            assert(pair_views(kept@) == before.push(pairs@[i as int]@));
        }
        i = i + 1;
    }
    assert(all.take(i as int) == all);
    kept
}

/// Builds the registry from the files of the configuration directory.
///
/// Every prompt file gives a pair named by its stem, with the trimmed file
/// contents as prompt. Other files give none, nor do files with the reserved
/// stem, nor prompt files that hold nothing but white space. Where no file
/// gives a pair the two built-in pairs are offered, and the caller is handed
/// the two files to write so that they can be edited; a blank prompt file of
/// the same name is replaced by them. The pairs come in ascending order of
/// identifier; of pairs whose identifiers differ in nothing but the case of
/// their ASCII letters only the first is offered.
pub fn load_prompts(files: Vec<PromptFile>) -> (loaded: LoadedPrompts)
    ensures
        pair_views(loaded.pairs@) == registry_of(file_views(files@)),
        file_views(loaded.materialize@) == files_to_write(file_views(files@)),
        loaded.pairs.len() > 0,
        ordered_by_name(pair_views(loaded.pairs@)),
        distinct_names(pair_views(loaded.pairs@)),
        forall|i: int|
            0 <= i < loaded.pairs.len() ==> {
                &&& (#[trigger] loaded.pairs@[i]).prompt@.len() > 0
                &&& trimmed(loaded.pairs@[i].prompt@) == loaded.pairs@[i].prompt@
                &&& loaded.pairs@[i]@.well_formed()
                &&& !is_reserved(loaded.pairs@[i].name@)
            },
{
    let ghost all = file_views(files@);
    let mut pairs: Vec<LanguagePair> = Vec::new();
    let mut count: usize = 0;
    let mut i: usize = 0;
    assert(all.take(0) == Seq::<PromptFileView>::empty());
    assert(pair_views(pairs@) == Seq::<PairView>::empty());
    while i < files.len()
        invariant
            i <= files.len(),
            all == file_views(files@),
            count == pairs_of(all.take(i as int)).len(),
            count <= i,
            pair_views(pairs@) == sorted_by_name(pairs_of(all.take(i as int))),
        decreases files.len() - i,
    {
        proof {
            assert(all.take(i + 1).drop_last() == all.take(i as int));
            assert(all.take(i + 1).last() == files@[i as int]@);
        }
        match identify_prompt(files[i].file_name.as_str()) {
            Some(id) => {
                let prompt = trim(files[i].contents.as_str());
                if !prompt.as_str().is_empty() {
                    let ghost earlier = pairs_of(all.take(i as int));
                    let pair = LanguagePair::new(id, prompt);
                    assert(earlier.push(pair@).drop_last() == earlier);
                    insert_ordered(&mut pairs, pair);
                    count = count + 1;
                }
            },
            None => {},
        }
        i = i + 1;
    }
    assert(all.take(i as int) == all);
    let mut materialize: Vec<PromptFile> = Vec::new();
    assert(file_views(materialize@) == Seq::<PromptFileView>::empty());
    if count == 0 {
        let first = LanguagePair::new(
            String::from_str(SPANISH_ENGLISH),
            trim(SPANISH_ENGLISH_PROMPT),
        );
        let second = LanguagePair::new(
            String::from_str(PORTUGUESE_ENGLISH),
            trim(PORTUGUESE_ENGLISH_PROMPT),
        );
        proof {
            let defaults = default_pairs();
            let one = seq![first@];
            let none = Seq::<PairView>::empty();
            assert(defaults.drop_last() == one);
            assert(one.drop_last() == none);
            assert(sorted_by_name(none) == none);
            assert(sorted_by_name(one) == inserted(none, first@));
            assert(sorted_by_name(defaults) == inserted(
                inserted(Seq::empty(), first@),
                second@,
            ));
        }
        insert_ordered(&mut pairs, first);
        insert_ordered(&mut pairs, second);
        materialize.push(
            PromptFile {
                file_name: String::from_str(SPANISH_ENGLISH_FILE),
                contents: String::from_str(SPANISH_ENGLISH_PROMPT),
            },
        );
        materialize.push(
            PromptFile {
                file_name: String::from_str(PORTUGUESE_ENGLISH_FILE),
                contents: String::from_str(PORTUGUESE_ENGLISH_PROMPT),
            },
        );
        assert(file_views(materialize@) == default_files());
    }
    let pairs = keep_distinct(pairs);
    proof {
        lemma_registry(all);
        assert forall|i: int| 0 <= i < pairs.len() implies {
            &&& (#[trigger] pairs@[i]).prompt@.len() > 0
            &&& trimmed(pairs@[i].prompt@) == pairs@[i].prompt@
            &&& pairs@[i]@.well_formed()
            &&& !is_reserved(pairs@[i].name@)
        } by {
            assert(offerable(registry_of(all)[i]));
            assert(pair_views(pairs@)[i] == pairs@[i]@);
        }
    }
    LoadedPrompts { pairs, materialize }
}

/// Finds where `inserted` puts a pair: behind everything that does not come
/// after it and in front of everything that does.
proof fn lemma_insertion_point(ordered: Seq<PairView>, pair: PairView) -> (position: int)
    ensures
        0 <= position <= ordered.len(),
        inserted(ordered, pair) == ordered.insert(position, pair),
        forall|j: int| position <= j < ordered.len() ==> precedes(pair.name, ordered[j].name),
        position > 0 ==> !precedes(pair.name, ordered[position - 1].name),
    decreases ordered.len(),
{
    if ordered.len() > 0 && precedes(pair.name, ordered.last().name) {
        let shorter = ordered.drop_last();
        let position = lemma_insertion_point(shorter, pair);
        assert(shorter.insert(position, pair).push(ordered.last()) == ordered.insert(
            position,
            pair,
        ));
        assert forall|j: int| position <= j < ordered.len() implies precedes(
            pair.name,
            ordered[j].name,
        ) by {
            if j < shorter.len() {
                assert(ordered[j] == shorter[j]);
            }
        }
        position
    } else {
        assert(ordered.insert(ordered.len() as int, pair) == ordered.push(pair));
        ordered.len() as int
    }
}

/// Putting a pair into an ordered sequence leaves it ordered and adds that
/// pair and nothing else.
pub proof fn lemma_inserted_ordered(ordered: Seq<PairView>, pair: PairView)
    requires
        ordered_by_name(ordered),
    ensures
        ordered_by_name(inserted(ordered, pair)),
        inserted(ordered, pair).to_multiset() == ordered.to_multiset().insert(pair),
        inserted(ordered, pair).len() == ordered.len() + 1,
{
    let position = lemma_insertion_point(ordered, pair);
    let after = ordered.insert(position, pair);
    vstd::seq_lib::to_multiset_insert(ordered, position, pair);
    assert forall|i: int, j: int| 0 <= i < j < after.len() implies !precedes(
        (#[trigger] after[j]).name,
        (#[trigger] after[i]).name,
    ) by {
        if j == position {
            // Everything in front of the new pair does not come after it.
            if precedes(pair.name, ordered[i].name) {
                lemma_precedes_between(pair.name, ordered[position - 1].name, ordered[i].name);
                if i < position - 1 {
                    assert(!precedes(ordered[position - 1].name, ordered[i].name));
                } else {
                    lemma_precedes_asymmetric(pair.name, ordered[i].name);
                }
            }
        } else if i == position {
            // The new pair comes before everything behind it.
            lemma_precedes_asymmetric(pair.name, ordered[j - 1].name);
        } else {
            let before_i = if i < position { i } else { i - 1 };
            let before_j = if j < position { j } else { j - 1 };
            assert(after[i] == ordered[before_i] && after[j] == ordered[before_j]);
        }
    }
}

/// Sorting gives an ordered sequence that holds the same pairs as often as
/// the sequence that was sorted.
pub proof fn lemma_sorted_by_name(pairs: Seq<PairView>)
    ensures
        ordered_by_name(sorted_by_name(pairs)),
        sorted_by_name(pairs).to_multiset() == pairs.to_multiset(),
        sorted_by_name(pairs).len() == pairs.len(),
    decreases pairs.len(),
{
    if pairs.len() == 0 {
        assert(pairs == Seq::<PairView>::empty());
    } else {
        lemma_sorted_by_name(pairs.drop_last());
        lemma_inserted_ordered(sorted_by_name(pairs.drop_last()), pairs.last());
        vstd::seq_lib::to_multiset_build(pairs.drop_last(), pairs.last());
        assert(pairs.drop_last().push(pairs.last()) == pairs);
    }
}

/// Every pair that is left after the pairs of like identifiers were taken
/// out stood in the sequence before.
proof fn lemma_distinct_member(pairs: Seq<PairView>, index: int) -> (source: int)
    requires
        0 <= index < distinct_by_name(pairs).len(),
    ensures
        0 <= source < pairs.len(),
        pairs[source] == distinct_by_name(pairs)[index],
    decreases pairs.len(),
{
    let kept = distinct_by_name(pairs.drop_last());
    if index < kept.len() {
        lemma_distinct_member(pairs.drop_last(), index)
    } else {
        pairs.len() - 1
    }
}

/// Taking the pairs of like identifiers out leaves pairs of different
/// identifiers in the order they had; it leaves something of every sequence
/// that holds something.
pub proof fn lemma_distinct_by_name(pairs: Seq<PairView>)
    ensures
        distinct_names(distinct_by_name(pairs)),
        ordered_by_name(pairs) ==> ordered_by_name(distinct_by_name(pairs)),
        pairs.len() > 0 ==> distinct_by_name(pairs).len() > 0,
        distinct_names(pairs) ==> distinct_by_name(pairs) == pairs,
    decreases pairs.len(),
{
    if pairs.len() > 0 {
        let earlier = pairs.drop_last();
        let kept = distinct_by_name(earlier);
        let after = distinct_by_name(pairs);
        lemma_distinct_by_name(earlier);
        if ordered_by_name(pairs) {
            assert forall|i: int, j: int| 0 <= i < j < earlier.len() implies !precedes(
                (#[trigger] earlier[j]).name,
                (#[trigger] earlier[i]).name,
            ) by {
                assert(earlier[i] == pairs[i] && earlier[j] == pairs[j]);
            }
            assert forall|i: int, j: int| 0 <= i < j < after.len() implies !precedes(
                (#[trigger] after[j]).name,
                (#[trigger] after[i]).name,
            ) by {
                if j == kept.len() {
                    let source = lemma_distinct_member(earlier, i);
                    assert(pairs[source] == after[i]);
                    assert(pairs[pairs.len() - 1] == after[j]);
                }
            }
        }
        if distinct_names(pairs) {
            assert forall|i: int, j: int| 0 <= i < j < earlier.len() implies !eq_ignoring_ascii_case(
                (#[trigger] earlier[i]).name,
                (#[trigger] earlier[j]).name,
            ) by {
                assert(earlier[i] == pairs[i] && earlier[j] == pairs[j]);
            }
            assert(kept == earlier);
            assert forall|i: int| 0 <= i < kept.len() implies !eq_ignoring_ascii_case(
                (#[trigger] kept[i]).name,
                pairs.last().name,
            ) by {
                assert(kept[i] == pairs[i]);
                assert(pairs[pairs.len() - 1] == pairs.last());
            }
            assert(earlier.push(pairs.last()) == pairs);
        }
    }
}

/// The pairs of a registry are among the pairs that the load started from.
proof fn lemma_registry_member(files: Seq<PromptFileView>, index: int) -> (source: int)
    requires
        0 <= index < registry_of(files).len(),
    ensures
        0 <= source < found_pairs(files).len(),
        found_pairs(files)[source] == registry_of(files)[index],
{
    let found = found_pairs(files);
    let sorted = sorted_by_name(found);
    let at = lemma_distinct_member(sorted, index);
    let pair = sorted[at];
    lemma_sorted_by_name(found);
    assert(sorted.contains(pair));
    vstd::seq_lib::to_multiset_contains(sorted, pair);
    vstd::seq_lib::to_multiset_contains(found, pair);
    choose|k: int| 0 <= k < found.len() && found[k] == pair
}

/// Every pair that a file defines is fit to be offered.
proof fn lemma_pairs_offerable(files: Seq<PromptFileView>, index: int)
    requires
        0 <= index < pairs_of(files).len(),
    ensures
        offerable(pairs_of(files)[index]),
    decreases files.len(),
{
    if files.len() > 0 {
        let earlier = pairs_of(files.drop_last());
        if index < earlier.len() {
            lemma_pairs_offerable(files.drop_last(), index);
        } else {
            lemma_trimmed(files.last().contents);
        }
    }
}

/// The built-in prompts hold something after trimming, and the built-in
/// pairs are fit to be offered.
proof fn lemma_defaults_offerable()
    ensures
        offerable(default_pairs()[0]),
        offerable(default_pairs()[1]),
        !eq_ignoring_ascii_case(default_pairs()[0].name, default_pairs()[1].name),
{
    reveal_strlit(
        "You are a translator between Spanish and English.\n\nWhen the user writes in Spanish, answer with the English translation. When the user writes in English, answer with the Spanish translation.\n\nAnswer with the translation only: no explanations, no notes, no quotation marks. Keep the tone, the register and the line breaks of the text.\n",
    );
    reveal_strlit(
        "You are a translator between Portuguese and English.\n\nWhen the user writes in Portuguese, answer with the English translation. When the user writes in English, answer with the Portuguese translation.\n\nAnswer with the translation only: no explanations, no notes, no quotation marks. Keep the tone, the register and the line breaks of the text.\n",
    );
    reveal_strlit("es_en");
    reveal_strlit("pt_en");
    reveal_strlit("readme");
    assert(SPANISH_ENGLISH_PROMPT@[0] == 'Y');
    assert(PORTUGUESE_ENGLISH_PROMPT@[0] == 'Y');
    lemma_trimmed(SPANISH_ENGLISH_PROMPT@);
    lemma_trimmed(PORTUGUESE_ENGLISH_PROMPT@);
    assert(SPANISH_ENGLISH@.len() == 5 && PORTUGUESE_ENGLISH@.len() == 5);
    assert(ascii_folded(SPANISH_ENGLISH@[0]) != ascii_folded(PORTUGUESE_ENGLISH@[0]));
}

/// What every registry is like: it offers at least one pair, its pairs come
/// in the order of their identifiers, no two of them have the same identifier
/// even when the case of ASCII letters is left aside, and each has a derived
/// label, a prompt that holds something and has no white space around it,
/// and an identifier other than the reserved stem.
pub proof fn lemma_registry(files: Seq<PromptFileView>)
    ensures
        registry_of(files).len() > 0,
        ordered_by_name(registry_of(files)),
        distinct_names(registry_of(files)),
        forall|i: int| 0 <= i < registry_of(files).len() ==> offerable(#[trigger] registry_of(files)[i]),
{
    let found = found_pairs(files);
    lemma_sorted_by_name(found);
    lemma_distinct_by_name(sorted_by_name(found));
    assert forall|i: int| 0 <= i < registry_of(files).len() implies offerable(
        #[trigger] registry_of(files)[i],
    ) by {
        let source = lemma_registry_member(files, i);
        if needs_defaults(files) {
            lemma_defaults_offerable();
        } else {
            lemma_pairs_offerable(files, source);
        }
    }
}

/// A directory in which no file defines a pair, and so a directory without a
/// prompt file, gives exactly the two built-in pairs, in order, and the two
/// files that hold their prompts are to be written.
pub proof fn lemma_no_prompt_files_gives_defaults(files: Seq<PromptFileView>)
    requires
        forall|i: int| 0 <= i < files.len() ==> pair_of(#[trigger] files[i]) is None,
    ensures
        registry_of(files) == default_pairs(),
        registry_of(files).len() == 2,
        files_to_write(files) == default_files(),
        files_to_write(files).len() == 2,
{
    lemma_no_pairs(files);
    lemma_defaults_in_order();
    lemma_defaults_offerable();
    let defaults = default_pairs();
    assert forall|i: int, j: int| 0 <= i < j < defaults.len() implies !eq_ignoring_ascii_case(
        (#[trigger] defaults[i]).name,
        (#[trigger] defaults[j]).name,
    ) by {}
    lemma_distinct_by_name(defaults);
}

/// Files that define no pair give no pairs.
proof fn lemma_no_pairs(files: Seq<PromptFileView>)
    requires
        forall|i: int| 0 <= i < files.len() ==> pair_of(#[trigger] files[i]) is None,
    ensures
        pairs_of(files).len() == 0,
    decreases files.len(),
{
    if files.len() > 0 {
        assert(pair_of(files[files.len() - 1]) is None);
        lemma_no_pairs(files.drop_last());
    }
}

/// The built-in pairs are listed in the order of their identifiers.
proof fn lemma_defaults_in_order()
    ensures
        sorted_by_name(default_pairs()) == default_pairs(),
{
    let defaults = default_pairs();
    let first = defaults[0];
    let second = defaults[1];
    let one = seq![first];
    let none = Seq::<PairView>::empty();
    reveal_strlit("es_en");
    reveal_strlit("pt_en");
    assert(!precedes(second.name, first.name));
    assert(defaults.drop_last() == one);
    assert(one.drop_last() == none);
    assert(sorted_by_name(none) == none);
    assert(sorted_by_name(one) == inserted(none, first));
    assert(inserted(none, first) == one);
    assert(inserted(one, second) == defaults);
}

/// A file with the reserved stem defines no pair, whatever its extension,
/// however its stem is capitalised and whatever it holds; and a prompt file
/// that holds nothing but white space defines none.
pub proof fn lemma_reserved_is_no_prompt(file: PromptFileView)
    ensures
        is_reserved(file_stem(file.file_name)) ==> pair_of(file) is None,
        trimmed(file.contents).len() == 0 ==> pair_of(file) is None,
{
}

/// A file that defines no pair can be taken out of a directory, wherever it
/// stands, without any effect on the load; so can every file with the
/// reserved stem.
pub proof fn lemma_other_files_ignored(files: Seq<PromptFileView>, index: int)
    requires
        0 <= index < files.len(),
        pair_of(files[index]) is None,
    ensures
        pairs_of(files) == pairs_of(files.remove(index)),
        registry_of(files) == registry_of(files.remove(index)),
        files_to_write(files) == files_to_write(files.remove(index)),
    decreases files.len(),
{
    if index == files.len() - 1 {
        assert(files.remove(index) == files.drop_last());
    } else {
        lemma_other_files_ignored(files.drop_last(), index);
        assert(files.remove(index).drop_last() == files.drop_last().remove(index));
        assert(files.remove(index).last() == files.last());
    }
}

} // verus!
