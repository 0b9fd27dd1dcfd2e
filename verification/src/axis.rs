//! Reading einsum equations and working out the shapes they give.

use crate::equation::{
    bias_mark, continues, is_letter, law_readable_texts_are_spellings, lemma_read_term, read_equation, read_list,
    read_term, read_word, term_views, word_end, AxisTerm, MappingView, TermView,
};
use vstd::prelude::*;

verus! {

/// Why an equation is refused.
#[derive(Debug, Clone, Copy, PartialEq, Eq, Structural)]
pub enum EquationError {
    /// The text does not follow the grammar.
    Syntax,
    /// A tensor has the name that is reserved for biases.
    ReservedName,
    /// Two tensors have the same name.
    RepeatedName,
    /// An axis occurs twice in one term.
    RepeatedAxis,
    /// An output has an axis that neither the first input nor the one paired with it has.
    UnknownAxis,
    /// A bias has an axis that its output does not have.
    BiasAxis,
    /// Two axes that are contracted stand in another order on the two sides.
    ContractionOrder,
}

/// Why shapes do not fit an equation.
#[derive(Debug, Clone, Copy, PartialEq, Eq, Structural)]
pub enum ShapeError {
    /// There are not as many shapes as inputs.
    InputCount,
    /// A shape has not as many dimensions as its tensor has axes.
    RankMismatch,
    /// An axis has two different sizes.
    AxisMismatch,
    /// A bias has an axis that the output does not have.
    BiasAxis,
}

/// The reserved name.
pub open spec fn reserved_name() -> Seq<char> {
    seq!['B', 'I', 'A', 'S']
}

/// No axis of a term, nor of its bias, occurs twice.
pub open spec fn axes_distinct(term: TermView) -> bool {
    &&& term.axes.no_duplicates()
    &&& term.bias matches Some(axes) ==> axes.no_duplicates()
}

/// Some input has the axis.
pub open spec fn is_input_axis(inputs: Seq<TermView>, axis: char) -> bool {
    exists|i: int| 0 <= i < inputs.len() && (#[trigger] inputs[i]).axes.contains(axis)
}

/// Every axis of a term is an axis of some input.
pub open spec fn axes_known(inputs: Seq<TermView>, term: TermView) -> bool {
    forall|p: int| 0 <= p < term.axes.len() ==> is_input_axis(inputs, #[trigger] term.axes[p])
}

/// Every axis in `part` is one in `whole`.
pub open spec fn axes_within(part: Seq<char>, whole: Seq<char>) -> bool {
    forall|p: int| 0 <= p < part.len() ==> whole.contains(#[trigger] part[p])
}

/// Every axis of a term's bias is one of the term's own.
pub open spec fn bias_known(term: TermView) -> bool {
    term.bias matches Some(axes) ==> axes_within(axes, term.axes)
}

/// The axes that `left` and `right` share and `out` lacks stand in the same order in both.
pub open spec fn contraction_ordered(left: Seq<char>, right: Seq<char>, out: Seq<char>) -> bool {
    forall|i: int, j: int, p: int, q: int|
        0 <= i < j < left.len() && 0 <= p < right.len() && 0 <= q < right.len() && #[trigger] left[i]
            == #[trigger] right[p] && #[trigger] left[j] == #[trigger] right[q] && !out.contains(left[i])
            && !out.contains(left[j]) ==> p < q
}

impl MappingView {
    /// All terms, the inputs first.
    pub open spec fn terms(self) -> Seq<TermView> {
        self.inputs + self.outputs
    }

    /// No tensor has the reserved name.
    pub open spec fn names_free(self) -> bool {
        forall|i: int| 0 <= i < self.terms().len() ==> (#[trigger] self.terms()[i]).name != reserved_name()
    }

    /// No two tensors have the same name.
    pub open spec fn names_distinct(self) -> bool {
        forall|i: int, j: int|
            0 <= i < j < self.terms().len() ==> (#[trigger] self.terms()[i]).name != (#[trigger] self.terms()[j]).name
    }

    /// No axis occurs twice in one term.
    pub open spec fn all_axes_distinct(self) -> bool {
        forall|i: int| 0 <= i < self.terms().len() ==> axes_distinct(#[trigger] self.terms()[i])
    }

    /// The inputs that an output is computed from: the first one and the one that it is
    /// paired with. An output too many, which is paired with none, may have any axes of the
    /// inputs; it is the number of outputs that is wrong then.
    pub open spec fn sources(self, output: int) -> Seq<TermView> {
        if output + 1 < self.inputs.len() {
            seq![self.inputs[0], self.inputs[output + 1]]
        } else {
            self.inputs
        }
    }

    /// Every axis of an output is one of the inputs that it is computed from.
    pub open spec fn all_axes_known(self) -> bool {
        forall|k: int| 0 <= k < self.outputs.len() ==> axes_known(self.sources(k), #[trigger] self.outputs[k])
    }

    /// Every bias axis is an axis of its output.
    pub open spec fn all_biases_known(self) -> bool {
        forall|k: int| 0 <= k < self.outputs.len() ==> bias_known(#[trigger] self.outputs[k])
    }

    /// The contracted axes of every pair of the first input and another one stand in the
    /// same order in both.
    pub open spec fn all_contractions_ordered(self) -> bool {
        forall|k: int|
            0 <= k < self.outputs.len() && k + 1 < self.inputs.len() ==> contraction_ordered(
                self.inputs[0].axes,
                self.inputs[k + 1].axes,
                (#[trigger] self.outputs[k]).axes,
            )
    }

    /// Why the equation makes no sense, if it makes none.
    pub open spec fn error(self) -> Option<EquationError> {
        if !self.names_free() {
            Some(EquationError::ReservedName)
        } else if !self.names_distinct() {
            Some(EquationError::RepeatedName)
        } else if !self.all_axes_distinct() {
            Some(EquationError::RepeatedAxis)
        } else if !self.all_axes_known() {
            Some(EquationError::UnknownAxis)
        } else if !self.all_biases_known() {
            Some(EquationError::BiasAxis)
        } else if !self.all_contractions_ordered() {
            Some(EquationError::ContractionOrder)
        } else {
            None
        }
    }

    /// The equation is written in the right letters and makes sense.
    pub open spec fn valid(self) -> bool {
        self.spellable() && self.error() is None
    }

    /// How many outputs have a bias.
    pub open spec fn bias_count(self) -> nat {
        biases_of(self.outputs).len()
    }
}

/// The axes of the biases of a list of outputs, in order.
pub open spec fn biases_of(outputs: Seq<TermView>) -> Seq<Seq<char>>
    decreases outputs.len(),
{
    if outputs.len() == 0 {
        Seq::empty()
    } else {
        match outputs.last().bias {
            None => biases_of(outputs.drop_last()),
            Some(axes) => biases_of(outputs.drop_last()).push(axes),
        }
    }
}

/// Why a text is no equation, if it is none.
pub open spec fn equation_error(text: Seq<char>) -> Option<EquationError> {
    match read_equation(text) {
        None => Some(EquationError::Syntax),
        Some(mapping) => mapping.error(),
    }
}

/// The parsed equation of an einsum.
#[derive(Debug, PartialEq, Eq)]
pub struct AxesMapping {
    pub inputs: Vec<AxisTerm>,
    pub outputs: Vec<AxisTerm>,
}

impl View for AxesMapping {
    type V = MappingView;

    open spec fn view(&self) -> MappingView {
        MappingView { inputs: term_views(self.inputs@), outputs: term_views(self.outputs@) }
    }
}

fn letter(c: char, upper: bool) -> (is: bool)
    ensures
        is == is_letter(c, upper),
{
    if upper {
        'A' <= c && c <= 'Z'
    } else {
        'a' <= c && c <= 'z'
    }
}

fn chars_of(text: &str) -> (chars: Vec<char>)
    ensures
        chars@ == text@,
{
    let len: usize = text.unicode_len();
    let mut chars: Vec<char> = Vec::new();
    let mut i: usize = 0;
    while i < len
        invariant
            len == text@.len(),
            i <= len,
            chars@ == text@.take(i as int),
        decreases len - i,
    {
        chars.push(text.get_char(i));
        assert(chars@ =~= text@.take(i + 1));
        i = i + 1;
    }
    assert(chars@ =~= text@);
    chars
}

fn slice_of(text: &Vec<char>, from: usize, to: usize) -> (part: Vec<char>)
    requires
        from <= to <= text.len(),
    ensures
        part@ == text@.subrange(from as int, to as int),
{
    let mut part: Vec<char> = Vec::new();
    let mut i: usize = from;
    while i < to
        invariant
            from <= i <= to <= text.len(),
            part@ == text@.subrange(from as int, i as int),
        decreases to - i,
    {
        part.push(text[i]);
        assert(part@ =~= text@.subrange(from as int, i + 1));
        i = i + 1;
    }
    part
}

/// Whether a list of axes, or a name, holds a letter.
fn holds(chars: &Vec<char>, c: char) -> (found: bool)
    ensures
        found == chars@.contains(c),
{
    let mut i: usize = 0;
    while i < chars.len()
        invariant
            i <= chars.len(),
            forall|j: int| 0 <= j < i ==> chars@[j] != c,
        decreases chars.len() - i,
    {
        if chars[i] == c {
            assert(chars@[i as int] == c);
            return true;
        }
        i = i + 1;
    }
    false
}

fn same_chars(a: &Vec<char>, b: &Vec<char>) -> (same: bool)
    ensures
        same == (a@ == b@),
{
    if a.len() != b.len() {
        return false;
    }
    let mut i: usize = 0;
    while i < a.len()
        invariant
            i <= a.len(),
            a.len() == b.len(),
            forall|j: int| 0 <= j < i ==> a@[j] == b@[j],
        decreases a.len() - i,
    {
        if a[i] != b[i] {
            return false;
        }
        i = i + 1;
    }
    assert(a@ =~= b@);
    true
}

fn parse_word(text: &Vec<char>, at: usize, upper: bool, close: char) -> (result: Option<(Vec<char>, usize)>)
    requires
        at <= text.len(),
    ensures
        match (result, read_word(text@, at as int, upper, close)) {
            (Some((word, end)), Some((expected, expected_end))) => word@ == expected && end == expected_end && end
                <= text.len(),
            (None, None) => true,
            _ => false,
        },
{
    let mut end: usize = at;
    while end < text.len() && letter(text[end], upper)
        invariant
            at <= end <= text.len(),
            word_end(text@, at as int, upper) == word_end(text@, end as int, upper),
        decreases text.len() - end,
    {
        end = end + 1;
    }
    if at < end && end < text.len() && text[end] == close {
        Some((slice_of(text, at, end), end + 1))
    } else {
        None
    }
}

fn is_bias_mark(text: &Vec<char>, at: usize) -> (is: bool)
    requires
        at <= text.len(),
    ensures
        is == continues(text@, at as int, bias_mark()),
{
    if text.len() - at < 6 {
        return false;
    }
    let is: bool = text[at] == '+' && text[at + 1] == 'B' && text[at + 2] == 'I' && text[at + 3] == 'A' && text[at + 4]
        == 'S' && text[at + 5] == '(';
    proof {
        let part: Seq<char> = text@.subrange(at as int, at + 6);
        if is {
            assert(part =~= bias_mark());
        } else if part == bias_mark() {
            assert(part[0] == '+' && part[1] == 'B' && part[2] == 'I' && part[3] == 'A' && part[4] == 'S' && part[5]
                == '(');
        }
    }
    is
}

fn parse_term(text: &Vec<char>, at: usize, biased: bool) -> (result: Option<(AxisTerm, usize)>)
    requires
        at <= text.len(),
    ensures
        match (result, read_term(text@, at as int, biased)) {
            (Some((term, end)), Some((expected, expected_end))) => term@ == expected && end == expected_end && at < end
                <= text.len(),
            (None, None) => true,
            _ => false,
        },
{
    proof {
        lemma_read_term(text@, at as int, biased);
    }
    let (name, inside): (Vec<char>, usize) = match parse_word(text, at, true, '(') {
        Some(found) => found,
        None => {
            return None;
        },
    };
    let (axes, end): (Vec<char>, usize) = match parse_word(text, inside, false, ')') {
        Some(found) => found,
        None => {
            return None;
        },
    };
    if biased && end < text.len() && text[end] == '+' {
        if !is_bias_mark(text, end) {
            return None;
        }
        match parse_word(text, end + 6, false, ')') {
            Some((bias, last)) => Some((AxisTerm { name, axes, bias: Some(bias) }, last)),
            None => None,
        }
    } else {
        Some((AxisTerm { name, axes, bias: None }, end))
    }
}

fn parse_list(text: &Vec<char>, from: usize, biased: bool, before: Vec<AxisTerm>) -> (result: Option<
    (Vec<AxisTerm>, usize),
>)
    requires
        from <= text.len(),
    ensures
        match (result, read_list(text@, from as int, biased, term_views(before@))) {
            (Some((terms, end)), Some((expected, expected_end))) => term_views(terms@) == expected && end
                == expected_end && end <= text.len(),
            (None, None) => true,
            _ => false,
        },
{
    let mut terms: Vec<AxisTerm> = before;
    let mut at: usize = from;
    loop
        invariant
            at <= text.len(),
            read_list(text@, from as int, biased, term_views(before@)) == read_list(
                text@,
                at as int,
                biased,
                term_views(terms@),
            ),
        decreases text.len() - at,
    {
        match parse_term(text, at, biased) {
            None => {
                return None;
            },
            Some((term, end)) => {
                let ghost sofar: Seq<AxisTerm> = terms@;
                terms.push(term);
                assert(term_views(terms@) =~= term_views(sofar).push(term@));
                if end < text.len() && text[end] == ':' {
                    at = end + 1;
                } else {
                    return Some((terms, end));
                }
            },
        }
    }
}

/// Reads an equation that follows the grammar.
fn parse_equation(text: &Vec<char>) -> (result: Option<AxesMapping>)
    ensures
        match (result, read_equation(text@)) {
            (Some(mapping), Some(expected)) => mapping@ == expected,
            (None, None) => true,
            _ => false,
        },
{
    let (first, end): (AxisTerm, usize) = match parse_term(text, 0, false) {
        Some(found) => found,
        None => {
            return None;
        },
    };
    if end >= text.len() || text[end] != '@' {
        return None;
    }
    let ghost view: TermView = first@;
    let mut before: Vec<AxisTerm> = Vec::new();
    before.push(first);
    assert(term_views(before@) =~= seq![view]);
    let (inputs, arrow): (Vec<AxisTerm>, usize) = match parse_list(text, end + 1, false, before) {
        Some(found) => found,
        None => {
            return None;
        },
    };
    let shown: bool = text.len() - arrow >= 2 && text[arrow] == '-' && text[arrow + 1] == '>';
    proof {
        let part: Seq<char> = text@.subrange(arrow as int, arrow + 2);
        if shown {
            assert(part =~= seq!['-', '>']);
        } else if arrow + 2 <= text.len() && part == seq!['-', '>'] {
            assert(part[0] == '-' && part[1] == '>');
        }
        assert(shown == continues(text@, arrow as int, seq!['-', '>']));
    }
    if !shown {
        return None;
    }
    let none: Vec<AxisTerm> = Vec::new();
    assert(term_views(none@) =~= Seq::<TermView>::empty());
    match parse_list(text, arrow + 2, true, none) {
        Some((outputs, last)) => {
            if last == text.len() {
                Some(AxesMapping { inputs, outputs })
            } else {
                None
            }
        },
        None => None,
    }
}

/// Whether no letter occurs twice.
fn distinct(chars: &Vec<char>) -> (is: bool)
    ensures
        is == chars@.no_duplicates(),
{
    let mut i: usize = 0;
    while i < chars.len()
        invariant
            i <= chars.len(),
            forall|x: int, y: int| 0 <= x < y < i ==> chars@[x] != chars@[y],
        decreases chars.len() - i,
    {
        let mut j: usize = 0;
        while j < i
            invariant
                j <= i < chars.len(),
                forall|x: int| 0 <= x < j ==> chars@[x] != chars@[i as int],
            decreases i - j,
        {
            if chars[j] == chars[i] {
                assert(chars@[j as int] == chars@[i as int]);
                return false;
            }
            j = j + 1;
        }
        i = i + 1;
    }
    assert(chars@.no_duplicates()) by {
        assert forall|x: int, y: int| 0 <= x < chars@.len() && 0 <= y < chars@.len() && x != y implies chars@[x]
            != chars@[y] by {
            if y < x {
                assert(chars@[y] != chars@[x]);
            }
        }
    }
    true
}

/// Whether every letter of `part` is in `whole`.
pub(crate) fn within(part: &Vec<char>, whole: &Vec<char>) -> (is: bool)
    ensures
        is == axes_within(part@, whole@),
{
    let mut i: usize = 0;
    while i < part.len()
        invariant
            i <= part.len(),
            forall|p: int| 0 <= p < i ==> whole@.contains(#[trigger] part@[p]),
        decreases part.len() - i,
    {
        if !holds(whole, part[i]) {
            assert(!whole@.contains(part@[i as int]));
            return false;
        }
        i = i + 1;
    }
    true
}

fn term_axes_distinct(term: &AxisTerm) -> (is: bool)
    ensures
        is == axes_distinct(term@),
{
    match &term.bias {
        None => distinct(&term.axes),
        Some(bias) => distinct(&term.axes) && distinct(bias),
    }
}

fn term_bias_known(term: &AxisTerm) -> (is: bool)
    ensures
        is == bias_known(term@),
{
    match &term.bias {
        None => true,
        Some(bias) => within(bias, &term.axes),
    }
}

fn input_axis(inputs: &Vec<AxisTerm>, axis: char) -> (is: bool)
    ensures
        is == is_input_axis(term_views(inputs@), axis),
{
    let mut i: usize = 0;
    while i < inputs.len()
        invariant
            i <= inputs.len(),
            forall|j: int| 0 <= j < i ==> !(#[trigger] term_views(inputs@)[j]).axes.contains(axis),
        decreases inputs.len() - i,
    {
        if holds(&inputs[i].axes, axis) {
            assert(term_views(inputs@)[i as int].axes.contains(axis));
            return true;
        }
        i = i + 1;
    }
    false
}

fn term_axes_known(inputs: &Vec<AxisTerm>, term: &AxisTerm) -> (is: bool)
    ensures
        is == axes_known(term_views(inputs@), term@),
{
    let mut p: usize = 0;
    while p < term.axes.len()
        invariant
            p <= term.axes.len(),
            forall|j: int| 0 <= j < p ==> is_input_axis(term_views(inputs@), #[trigger] term@.axes[j]),
        decreases term.axes.len() - p,
    {
        if !input_axis(inputs, term.axes[p]) {
            assert(!is_input_axis(term_views(inputs@), term@.axes[p as int]));
            return false;
        }
        p = p + 1;
    }
    true
}

fn pair_axes_known(left: &AxisTerm, right: &AxisTerm, term: &AxisTerm) -> (is: bool)
    ensures
        is == axes_known(seq![left@, right@], term@),
{
    let ghost pair: Seq<TermView> = seq![left@, right@];
    let mut p: usize = 0;
    while p < term.axes.len()
        invariant
            p <= term.axes.len(),
            pair == seq![left@, right@],
            forall|j: int| 0 <= j < p ==> is_input_axis(pair, #[trigger] term@.axes[j]),
        decreases term.axes.len() - p,
    {
        let axis: char = term.axes[p];
        if holds(&left.axes, axis) {
            assert(pair[0].axes.contains(axis));
        } else if holds(&right.axes, axis) {
            assert(pair[1].axes.contains(axis));
        } else {
            assert(!is_input_axis(pair, term@.axes[p as int]));
            return false;
        }
        p = p + 1;
    }
    true
}

/// Every axis of an output is an input axis.
pub(crate) proof fn lemma_output_axes_are_input_axes(mapping: MappingView, output: int)
    requires
        mapping.all_axes_known(),
        0 <= output < mapping.outputs.len(),
    ensures
        axes_known(mapping.inputs, mapping.outputs[output]),
{
    let term: TermView = mapping.outputs[output];
    let sources: Seq<TermView> = mapping.sources(output);
    assert(axes_known(sources, term));
    assert forall|p: int| 0 <= p < term.axes.len() implies is_input_axis(mapping.inputs, #[trigger] term.axes[p]) by {
        assert(is_input_axis(sources, term.axes[p]));
        let i: int = choose|i: int|
            0 <= i < sources.len() && (#[trigger] sources[i]).axes.contains(term.axes[p]);
        if output + 1 < mapping.inputs.len() {
            let from: int = if i == 0 {
                0
            } else {
                output + 1
            };
            assert(mapping.inputs[from].axes.contains(term.axes[p]));
        } else {
            assert(mapping.inputs[i].axes.contains(term.axes[p]));
        }
    }
}

/// Where the contracted axis `c` stands in `axes`, if it is there.
pub(crate) fn position(axes: &Vec<char>, c: char) -> (result: Option<usize>)
    ensures
        match result {
            Some(at) => at < axes.len() && axes@[at as int] == c,
            None => !axes@.contains(c),
        },
{
    let mut i: usize = 0;
    while i < axes.len()
        invariant
            i <= axes.len(),
            forall|j: int| 0 <= j < i ==> axes@[j] != c,
        decreases axes.len() - i,
    {
        if axes[i] == c {
            return Some(i);
        }
        i = i + 1;
    }
    None
}

fn term_contraction_ordered(left: &Vec<char>, right: &Vec<char>, out: &Vec<char>) -> (is: bool)
    requires
        left@.no_duplicates(),
        right@.no_duplicates(),
    ensures
        is == contraction_ordered(left@, right@, out@),
{
    let mut j: usize = 0;
    while j < left.len()
        invariant
            j <= left.len(),
            left@.no_duplicates(),
            right@.no_duplicates(),
            forall|x: int, y: int, p: int, q: int|
                0 <= x < y < j && 0 <= p < right@.len() && 0 <= q < right@.len() && #[trigger] left@[x]
                    == #[trigger] right@[p] && #[trigger] left@[y] == #[trigger] right@[q] && !out@.contains(left@[x])
                    && !out@.contains(left@[y]) ==> p < q,
        decreases left.len() - j,
    {
        let here: Option<usize> = if holds(out, left[j]) {
            None
        } else {
            position(right, left[j])
        };
        if let Some(at) = here {
            let mut i: usize = 0;
            while i < j
                invariant
                    i <= j < left.len(),
                    at < right.len(),
                    right@[at as int] == left@[j as int],
                    !out@.contains(left@[j as int]),
                    left@.no_duplicates(),
                    right@.no_duplicates(),
                    forall|x: int, p: int|
                        0 <= x < i && 0 <= p < right@.len() && #[trigger] left@[x] == #[trigger] right@[p]
                            && !out@.contains(left@[x]) ==> p < at,
                decreases j - i,
            {
                if !holds(out, left[i]) {
                    if let Some(before) = position(right, left[i]) {
                        if before >= at {
                            assert(left@[i as int] == right@[before as int] && left@[j as int] == right@[at as int]);
                            return false;
                        }
                    }
                }
                i = i + 1;
            }
        }
        j = j + 1;
    }
    true
}

impl Clone for AxesMapping {
    fn clone(&self) -> (copy: Self)
        ensures
            copy@ == self@,
    {
        AxesMapping { inputs: copied_terms(&self.inputs), outputs: copied_terms(&self.outputs) }
    }
}

fn copied_terms(terms: &Vec<AxisTerm>) -> (copy: Vec<AxisTerm>)
    ensures
        term_views(copy@) == term_views(terms@),
{
    let mut copy: Vec<AxisTerm> = Vec::new();
    let mut i: usize = 0;
    while i < terms.len()
        invariant
            i <= terms.len(),
            copy.len() == i,
            forall|j: int| 0 <= j < i ==> (#[trigger] copy@[j])@ == terms@[j]@,
        decreases terms.len() - i,
    {
        copy.push(terms[i].clone());
        i = i + 1;
    }
    assert(term_views(copy@) =~= term_views(terms@));
    copy
}

impl AxesMapping {
    /// The terms, the inputs first.
    fn all_terms(&self) -> (all: Vec<&AxisTerm>)
        ensures
            all@.len() == self@.terms().len(),
            forall|i: int| 0 <= i < all@.len() ==> (#[trigger] all@[i])@ == self@.terms()[i],
    {
        let mut all: Vec<&AxisTerm> = Vec::new();
        let mut i: usize = 0;
        while i < self.inputs.len()
            invariant
                i <= self.inputs.len(),
                all@.len() == i,
                forall|j: int| 0 <= j < i ==> (#[trigger] all@[j])@ == self@.terms()[j],
            decreases self.inputs.len() - i,
        {
            all.push(&self.inputs[i]);
            i = i + 1;
        }
        let mut k: usize = 0;
        while k < self.outputs.len()
            invariant
                k <= self.outputs.len(),
                all@.len() == self.inputs@.len() + k,
                forall|j: int| 0 <= j < all@.len() ==> (#[trigger] all@[j])@ == self@.terms()[j],
            decreases self.outputs.len() - k,
        {
            all.push(&self.outputs[k]);
            k = k + 1;
        }
        all
    }

    fn names_error(&self) -> (result: Option<EquationError>)
        ensures
            match result {
                Some(EquationError::ReservedName) => !self@.names_free(),
                Some(EquationError::RepeatedName) => self@.names_free() && !self@.names_distinct(),
                Some(EquationError::RepeatedAxis) => self@.names_free() && self@.names_distinct()
                    && !self@.all_axes_distinct(),
                Some(_) => false,
                None => self@.names_free() && self@.names_distinct() && self@.all_axes_distinct(),
            },
    {
        let all: Vec<&AxisTerm> = self.all_terms();
        let ghost terms: Seq<TermView> = self@.terms();
        let reserved: Vec<char> = vec!['B', 'I', 'A', 'S'];
        assert(reserved@ =~= reserved_name());
        let mut i: usize = 0;
        while i < all.len()
            invariant
                i <= all.len(),
                terms == self@.terms(),
                reserved@ == reserved_name(),
                all@.len() == terms.len(),
                forall|j: int| 0 <= j < all@.len() ==> (#[trigger] all@[j])@ == terms[j],
                forall|j: int| 0 <= j < i ==> (#[trigger] terms[j]).name != reserved_name(),
            decreases all.len() - i,
        {
            if same_chars(&all[i].name, &reserved) {
                assert(terms[i as int].name == reserved_name());
                return Some(EquationError::ReservedName);
            }
            i = i + 1;
        }
        let mut j: usize = 0;
        while j < all.len()
            invariant
                j <= all.len(),
                terms == self@.terms(),
                all@.len() == terms.len(),
                forall|x: int| 0 <= x < all@.len() ==> (#[trigger] all@[x])@ == terms[x],
                forall|x: int, y: int| 0 <= x < y < j ==> (#[trigger] terms[x]).name != (#[trigger] terms[y]).name,
                self@.names_free(),
            decreases all.len() - j,
        {
            let mut k: usize = 0;
            while k < j
                invariant
                    k <= j < all.len(),
                    terms == self@.terms(),
                    all@.len() == terms.len(),
                    forall|x: int| 0 <= x < all@.len() ==> (#[trigger] all@[x])@ == terms[x],
                    forall|x: int| 0 <= x < k ==> (#[trigger] terms[x]).name != terms[j as int].name,
                    self@.names_free(),
                decreases j - k,
            {
                if same_chars(&all[k].name, &all[j].name) {
                    assert(terms[k as int].name == terms[j as int].name);
                    return Some(EquationError::RepeatedName);
                }
                k = k + 1;
            }
            j = j + 1;
        }
        let mut m: usize = 0;
        while m < all.len()
            invariant
                m <= all.len(),
                terms == self@.terms(),
                all@.len() == terms.len(),
                forall|x: int| 0 <= x < all@.len() ==> (#[trigger] all@[x])@ == terms[x],
                forall|x: int| 0 <= x < m ==> axes_distinct(#[trigger] terms[x]),
                self@.names_free(),
                self@.names_distinct(),
            decreases all.len() - m,
        {
            if !term_axes_distinct(all[m]) {
                assert(!axes_distinct(terms[m as int]));
                return Some(EquationError::RepeatedAxis);
            }
            m = m + 1;
        }
        None
    }

    fn outputs_error(&self) -> (result: Option<EquationError>)
        requires
            self@.all_axes_distinct(),
            self@.inputs.len() >= 1,
        ensures
            match result {
                Some(EquationError::UnknownAxis) => !self@.all_axes_known(),
                Some(EquationError::BiasAxis) => self@.all_axes_known() && !self@.all_biases_known(),
                Some(EquationError::ContractionOrder) => self@.all_axes_known() && self@.all_biases_known()
                    && !self@.all_contractions_ordered(),
                Some(_) => false,
                None => self@.all_axes_known() && self@.all_biases_known() && self@.all_contractions_ordered(),
            },
    {
        let ghost outs: Seq<TermView> = self@.outputs;
        let mut i: usize = 0;
        while i < self.outputs.len()
            invariant
                i <= self.outputs.len(),
                outs == self@.outputs,
                self@.inputs.len() >= 1,
                forall|k: int| 0 <= k < i ==> axes_known(self@.sources(k), #[trigger] outs[k]),
            decreases self.outputs.len() - i,
        {
            let known: bool = if i < self.inputs.len() - 1 {
                pair_axes_known(&self.inputs[0], &self.inputs[i + 1], &self.outputs[i])
            } else {
                term_axes_known(&self.inputs, &self.outputs[i])
            };
            assert(known == axes_known(self@.sources(i as int), outs[i as int]));
            if !known {
                return Some(EquationError::UnknownAxis);
            }
            i = i + 1;
        }
        let mut j: usize = 0;
        while j < self.outputs.len()
            invariant
                j <= self.outputs.len(),
                outs == self@.outputs,
                self@.all_axes_known(),
                forall|k: int| 0 <= k < j ==> bias_known(#[trigger] outs[k]),
            decreases self.outputs.len() - j,
        {
            if !term_bias_known(&self.outputs[j]) {
                assert(!bias_known(outs[j as int]));
                return Some(EquationError::BiasAxis);
            }
            j = j + 1;
        }
        let mut m: usize = 0;
        while m < self.outputs.len() && m < self.inputs.len() - 1
            invariant
                m <= self.outputs.len(),
                self@.inputs.len() >= 1,
                m <= self.inputs.len() - 1,
                outs == self@.outputs,
                self@.all_axes_distinct(),
                self@.all_axes_known(),
                self@.all_biases_known(),
                forall|k: int|
                    0 <= k < m ==> contraction_ordered(
                        self@.inputs[0].axes,
                        self@.inputs[k + 1].axes,
                        (#[trigger] outs[k]).axes,
                    ),
            decreases self.outputs.len() - m,
        {
            proof {
                assert(axes_distinct(self@.terms()[0]));
                assert(axes_distinct(self@.terms()[m + 1]));
                assert(self@.terms()[0] == self@.inputs[0]);
                assert(self@.terms()[m + 1] == self@.inputs[m + 1]);
            }
            if !term_contraction_ordered(&self.inputs[0].axes, &self.inputs[m + 1].axes, &self.outputs[m].axes) {
                assert(!contraction_ordered(self@.inputs[0].axes, self@.inputs[m + 1].axes, outs[m as int].axes));
                return Some(EquationError::ContractionOrder);
            }
            m = m + 1;
        }
        None
    }

    /// Parses an equation.
    pub fn from_string(equation: &str) -> (result: Result<AxesMapping, EquationError>)
        ensures
            match result {
                Ok(mapping) => mapping@.valid() && mapping@.spelling() == equation@ && read_equation(equation@)
                    == Some(mapping@),
                Err(error) => equation_error(equation@) == Some(error),
            },
            result is Ok <==> exists|mapping: MappingView|
                #[trigger] mapping.spellable() && mapping.error() is None && mapping.spelling() == equation@,
    {
        let text: Vec<char> = chars_of(equation);
        proof {
            law_readable_texts_are_spellings(equation@);
            assert forall|mapping: MappingView| #[trigger] mapping.spellable() && mapping.spelling() == equation@
                implies read_equation(equation@) == Some(mapping) by {
                crate::equation::law_reading_inverts_spelling(equation@, mapping);
            }
        }
        let mapping: AxesMapping = match parse_equation(&text) {
            Some(mapping) => mapping,
            None => {
                return Err(EquationError::Syntax);
            },
        };
        assert(mapping@.spellable());
        if let Some(error) = mapping.names_error() {
            return Err(error);
        }
        if let Some(error) = mapping.outputs_error() {
            return Err(error);
        }
        Ok(mapping)
    }

    /// How many tensors go in.
    pub fn input_count(&self) -> (count: usize)
        ensures
            count == self@.inputs.len(),
    {
        self.inputs.len()
    }

    /// How many tensors come out.
    pub fn output_count(&self) -> (count: usize)
        ensures
            count == self@.outputs.len(),
    {
        self.outputs.len()
    }

    /// How many outputs have a bias.
    pub fn bias_count(&self) -> (count: usize)
        ensures
            count == self@.bias_count(),
    {
        let mut count: usize = 0;
        let mut i: usize = 0;
        assert(self@.outputs.take(0) =~= Seq::<TermView>::empty());
        while i < self.outputs.len()
            invariant
                i <= self.outputs.len(),
                count <= i,
                count == biases_of(self@.outputs.take(i as int)).len(),
            decreases self.outputs.len() - i,
        {
            proof {
                let next: Seq<TermView> = self@.outputs.take(i + 1);
                assert(next.drop_last() =~= self@.outputs.take(i as int));
                assert(next.last() == self.outputs@[i as int]@);
            }
            if self.outputs[i].bias.is_some() {
                count = count + 1;
            }
            i = i + 1;
        }
        assert(self@.outputs.take(i as int) =~= self@.outputs);
        count
    }

    /// The number of axes of every output.
    pub fn output_ranks(&self) -> (ranks: Vec<usize>)
        ensures
            ranks@.len() == self@.outputs.len(),
            forall|k: int| 0 <= k < ranks@.len() ==> #[trigger] ranks@[k] == self@.outputs[k].axes.len(),
    {
        let mut ranks: Vec<usize> = Vec::new();
        let mut i: usize = 0;
        while i < self.outputs.len()
            invariant
                i <= self.outputs.len(),
                ranks@.len() == i,
                forall|k: int| 0 <= k < i ==> #[trigger] ranks@[k] == self@.outputs[k].axes.len(),
            decreases self.outputs.len() - i,
        {
            ranks.push(self.outputs[i].axes.len());
            i = i + 1;
        }
        ranks
    }
}

} // verus!
