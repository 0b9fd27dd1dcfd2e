//! The grammar of einsum equations.
//!
//! An equation such as `A(ijk)@B(ikl):C(imk)->E(ijl)+BIAS(il):F(ijm)` names, left of the
//! arrow, the tensors that go in and, right of it, those that come out. Upper-case
//! identifiers are tensors, the lower-case letters in the brackets behind one are its
//! axes. The first tensor stands before a single `@`; the tensors it is contracted with,
//! and the outputs, are separated by `:`. An output may have a bias added, written with
//! the reserved name `BIAS`.

use vstd::prelude::*;

verus! {

/// One tensor of an equation: its name, its axes and, for an output, the axes of its bias.
#[derive(Debug, PartialEq, Eq)]
pub struct AxisTerm {
    pub name: Vec<char>,
    pub axes: Vec<char>,
    pub bias: Option<Vec<char>>,
}

/// What a term says.
#[verifier::ext_equal]
pub struct TermView {
    pub name: Seq<char>,
    pub axes: Seq<char>,
    pub bias: Option<Seq<char>>,
}

impl View for AxisTerm {
    type V = TermView;

    open spec fn view(&self) -> TermView {
        TermView {
            name: self.name@,
            axes: self.axes@,
            bias: match self.bias {
                None => None,
                Some(axes) => Some(axes@),
            },
        }
    }
}

impl Clone for AxisTerm {
    fn clone(&self) -> (copy: Self)
        ensures
            copy@ == self@,
    {
        AxisTerm {
            name: copied(&self.name),
            axes: copied(&self.axes),
            bias: match &self.bias {
                None => None,
                Some(axes) => Some(copied(axes)),
            },
        }
    }
}

fn copied(chars: &Vec<char>) -> (copy: Vec<char>)
    ensures
        copy@ == chars@,
{
    let mut copy: Vec<char> = Vec::new();
    let mut i: usize = 0;
    while i < chars.len()
        invariant
            i <= chars.len(),
            copy@ == chars@.take(i as int),
        decreases chars.len() - i,
    {
        copy.push(chars[i]);
        i = i + 1;
    }
    assert(chars@.take(i as int) =~= chars@);
    copy
}

/// What an equation says: the tensors that go in, and those that come out.
#[verifier::ext_equal]
pub struct MappingView {
    pub inputs: Seq<TermView>,
    pub outputs: Seq<TermView>,
}

/// The views of a sequence of terms.
pub open spec fn term_views(terms: Seq<AxisTerm>) -> Seq<TermView> {
    terms.map_values(|term: AxisTerm| term@)
}

/// The letters that names, respectively axes, are made of.
pub open spec fn is_letter(c: char, upper: bool) -> bool {
    if upper {
        'A' <= c <= 'Z'
    } else {
        'a' <= c <= 'z'
    }
}

/// A non-empty word of letters of one case.
pub open spec fn is_word(word: Seq<char>, upper: bool) -> bool {
    &&& word.len() > 0
    &&& forall|i: int| 0 <= i < word.len() ==> is_letter(#[trigger] word[i], upper)
}

/// The reserved name, with the sign before it and the bracket behind it.
pub open spec fn bias_mark() -> Seq<char> {
    seq!['+', 'B', 'I', 'A', 'S', '(']
}

impl TermView {
    /// The term is made of the right letters; only an output may have a bias.
    pub open spec fn spellable(self, biased: bool) -> bool {
        &&& is_word(self.name, true)
        &&& is_word(self.axes, false)
        &&& self.bias matches Some(axes) ==> biased && is_word(axes, false)
    }

    /// How the term is written.
    pub open spec fn spelling(self) -> Seq<char> {
        let plain: Seq<char> = self.name + seq!['('] + self.axes + seq![')'];
        match self.bias {
            None => plain,
            Some(axes) => plain + bias_mark() + axes + seq![')'],
        }
    }
}

/// How a list of terms is written.
pub open spec fn list_spelling(terms: Seq<TermView>) -> Seq<char>
    decreases terms.len(),
{
    if terms.len() == 0 {
        Seq::empty()
    } else if terms.len() == 1 {
        terms[0].spelling()
    } else {
        terms[0].spelling() + seq![':'] + list_spelling(terms.skip(1))
    }
}

/// Every term of a list is made of the right letters.
pub open spec fn all_spellable(terms: Seq<TermView>, biased: bool) -> bool {
    forall|i: int| 0 <= i < terms.len() ==> (#[trigger] terms[i]).spellable(biased)
}

impl MappingView {
    /// The equation has a first input, at least one tensor to contract it with and at
    /// least one output, all made of the right letters.
    pub open spec fn spellable(self) -> bool {
        &&& self.inputs.len() >= 2
        &&& self.outputs.len() >= 1
        &&& all_spellable(self.inputs, false)
        &&& all_spellable(self.outputs, true)
    }

    /// How the equation is written.
    pub open spec fn spelling(self) -> Seq<char> {
        self.inputs[0].spelling() + seq!['@'] + list_spelling(self.inputs.skip(1)) + seq!['-', '>'] + list_spelling(
            self.outputs,
        )
    }
}

/// `text` continues with `word` at `at`.
pub open spec fn continues(text: Seq<char>, at: int, word: Seq<char>) -> bool {
    &&& 0 <= at
    &&& at + word.len() <= text.len()
    &&& text.subrange(at, at + word.len()) == word
}

/// Where the letters of one case that start at `at` end.
pub open spec fn word_end(text: Seq<char>, at: int, upper: bool) -> int
    decreases text.len() - at,
{
    if 0 <= at < text.len() && is_letter(text[at], upper) {
        word_end(text, at + 1, upper)
    } else {
        at
    }
}

/// Reads a word of letters of one case and the character `close` behind it.
pub open spec fn read_word(text: Seq<char>, at: int, upper: bool, close: char) -> Option<(Seq<char>, int)> {
    let end: int = word_end(text, at, upper);
    if at < end < text.len() && text[end] == close {
        Some((text.subrange(at, end), end + 1))
    } else {
        None
    }
}

/// Reads a term.
pub open spec fn read_term(text: Seq<char>, at: int, biased: bool) -> Option<(TermView, int)> {
    match read_word(text, at, true, '(') {
        None => None,
        Some((name, inside)) => match read_word(text, inside, false, ')') {
            None => None,
            Some((axes, end)) => if biased && end < text.len() && text[end] == '+' {
                if continues(text, end, bias_mark()) {
                    match read_word(text, end + 6, false, ')') {
                        None => None,
                        Some((bias, last)) => Some((TermView { name, axes, bias: Some(bias) }, last)),
                    }
                } else {
                    None
                }
            } else {
                Some((TermView { name, axes, bias: None }, end))
            },
        },
    }
}

/// Reads terms separated by `:` behind those already read.
pub open spec fn read_list(text: Seq<char>, at: int, biased: bool, before: Seq<TermView>) -> Option<
    (Seq<TermView>, int),
>
    decreases text.len() - at,
{
    proof {
        lemma_read_term(text, at, biased);
    }
    match read_term(text, at, biased) {
        None => None,
        Some((term, end)) => if 0 <= at && end < text.len() && text[end] == ':' {
            read_list(text, end + 1, biased, before.push(term))
        } else {
            Some((before.push(term), end))
        },
    }
}

/// Reads an equation.
pub open spec fn read_equation(text: Seq<char>) -> Option<MappingView> {
    match read_term(text, 0, false) {
        None => None,
        Some((first, end)) => if end < text.len() && text[end] == '@' {
            match read_list(text, end + 1, false, seq![first]) {
                None => None,
                Some((inputs, arrow)) => if continues(text, arrow, seq!['-', '>']) {
                    match read_list(text, arrow + 2, true, Seq::empty()) {
                        None => None,
                        Some((outputs, last)) => if last == text.len() {
                            Some(MappingView { inputs, outputs })
                        } else {
                            None
                        },
                    }
                } else {
                    None
                },
            }
        } else {
            None
        },
    }
}

proof fn lemma_word_end(text: Seq<char>, at: int, upper: bool)
    requires
        0 <= at <= text.len(),
    ensures
        at <= word_end(text, at, upper) <= text.len(),
        forall|i: int| at <= i < word_end(text, at, upper) ==> is_letter(#[trigger] text[i], upper),
        word_end(text, at, upper) < text.len() ==> !is_letter(text[word_end(text, at, upper)], upper),
    decreases text.len() - at,
{
    if at < text.len() && is_letter(text[at], upper) {
        lemma_word_end(text, at + 1, upper);
    }
}

/// What was read is the word, as it stands in the text.
proof fn lemma_read_word(text: Seq<char>, at: int, upper: bool, close: char)
    requires
        0 <= at <= text.len(),
    ensures
        read_word(text, at, upper, close) matches Some((word, end)) ==> {
            &&& at + 1 < end <= text.len()
            &&& is_word(word, upper)
            &&& end == at + word.len() + 1
            &&& continues(text, at, word + seq![close])
        },
{
    lemma_word_end(text, at, upper);
    if let Some((word, end)) = read_word(text, at, upper, close) {
        assert(text.subrange(at, end) =~= word + seq![close]);
        assert forall|i: int| 0 <= i < word.len() implies is_letter(#[trigger] word[i], upper) by {
            assert(word[i] == text[at + i]);
        }
    }
}

/// A word that stands in the text is read.
proof fn lemma_word_is_read(text: Seq<char>, at: int, upper: bool, close: char, word: Seq<char>)
    requires
        is_word(word, upper),
        !is_letter(close, upper),
        continues(text, at, word + seq![close]),
    ensures
        read_word(text, at, upper, close) == Some((word, at + word.len() + 1)),
{
    let shown: Seq<char> = word + seq![close];
    assert forall|i: int| 0 <= i < shown.len() implies text[at + i] == #[trigger] shown[i] by {
        assert(text.subrange(at, at + shown.len())[i] == text[at + i]);
    }
    assert(text[at + word.len()] == shown[word.len() as int]);
    assert forall|i: int| 0 <= i < word.len() implies is_letter(#[trigger] text[at + i], upper) by {
        assert(text[at + i] == shown[i]);
        assert(shown[i] == word[i]);
    }
    lemma_word_end_is(text, at, upper, at + word.len());
    assert(text.subrange(at, at + word.len()) =~= word) by {
        assert forall|i: int| 0 <= i < word.len() implies text.subrange(at, at + word.len())[i] == word[i] by {
            assert(text[at + i] == shown[i]);
        }
    }
}

proof fn lemma_word_end_is(text: Seq<char>, at: int, upper: bool, end: int)
    requires
        0 <= at <= end < text.len(),
        !is_letter(text[end], upper),
        forall|i: int| 0 <= i < end - at ==> is_letter(#[trigger] text[at + i], upper),
    ensures
        word_end(text, at, upper) == end,
    decreases end - at,
{
    if at < end {
        assert(is_letter(text[at + 0], upper));
        assert forall|i: int| 0 <= i < end - (at + 1) implies is_letter(#[trigger] text[at + 1 + i], upper) by {
            assert(is_letter(text[at + (i + 1)], upper));
        }
        lemma_word_end_is(text, at + 1, upper, end);
    }
}

/// Two words that stand one behind the other stand there as one.
proof fn lemma_continues_append(text: Seq<char>, at: int, first: Seq<char>, second: Seq<char>)
    ensures
        continues(text, at, first + second) <==> continues(text, at, first) && continues(
            text,
            at + first.len(),
            second,
        ),
{
    let both: Seq<char> = first + second;
    let mid: int = at + first.len();
    if continues(text, at, both) {
        assert(text.subrange(at, mid) =~= first) by {
            assert forall|i: int| 0 <= i < first.len() implies text.subrange(at, mid)[i] == first[i] by {
                assert(text.subrange(at, at + both.len())[i] == both[i]);
            }
        }
        assert(text.subrange(mid, mid + second.len()) =~= second) by {
            assert forall|i: int| 0 <= i < second.len() implies text.subrange(mid, mid + second.len())[i]
                == second[i] by {
                assert(text.subrange(at, at + both.len())[i + first.len()] == both[i + first.len()]);
            }
        }
    }
    if continues(text, at, first) && continues(text, mid, second) {
        assert(text.subrange(at, at + both.len()) =~= both) by {
            assert forall|i: int| 0 <= i < both.len() implies text.subrange(at, at + both.len())[i] == both[i] by {
                if i < first.len() {
                    assert(text.subrange(at, mid)[i] == first[i]);
                } else {
                    assert(text.subrange(mid, mid + second.len())[i - first.len()] == second[i - first.len()]);
                }
            }
        }
    }
}

/// What was read is the term, as it stands in the text.
pub proof fn lemma_read_term(text: Seq<char>, at: int, biased: bool)
    ensures
        0 <= at <= text.len() ==> (read_term(text, at, biased) matches Some((term, end)) ==> {
            &&& at < end <= text.len()
            &&& term.spellable(biased)
            &&& end == at + term.spelling().len()
            &&& continues(text, at, term.spelling())
        }),
        !(0 <= at <= text.len()) ==> read_term(text, at, biased) is None,
{
    if 0 <= at <= text.len() {
        lemma_read_word(text, at, true, '(');
        if let Some((name, inside)) = read_word(text, at, true, '(') {
            lemma_read_word(text, inside, false, ')');
            if let Some((axes, end)) = read_word(text, inside, false, ')') {
                let head: Seq<char> = name + seq!['('];
                let plain: Seq<char> = name + seq!['('] + axes + seq![')'];
                lemma_continues_append(text, at, head, axes + seq![')']);
                assert(head + (axes + seq![')']) =~= plain);
                assert(continues(text, at, plain));
                if biased && end < text.len() && text[end] == '+' && continues(text, end, bias_mark()) {
                    lemma_read_word(text, end + 6, false, ')');
                    if let Some((bias, last)) = read_word(text, end + 6, false, ')') {
                        let tail: Seq<char> = bias + seq![')'];
                        lemma_continues_append(text, at, plain, bias_mark());
                        lemma_continues_append(text, at, plain + bias_mark(), tail);
                        assert(plain + bias_mark() + tail =~= plain + bias_mark() + bias + seq![')']);
                    }
                }
            }
        }
    } else {
        assert(word_end(text, at, true) == at);
    }
}

/// A term that stands in the text, and is not followed by a sign, is read.
proof fn lemma_term_is_read(text: Seq<char>, at: int, biased: bool, term: TermView)
    requires
        term.spellable(biased),
        continues(text, at, term.spelling()),
        at + term.spelling().len() < text.len() ==> text[at + term.spelling().len()] != '+',
    ensures
        read_term(text, at, biased) == Some((term, at + term.spelling().len())),
{
    let head: Seq<char> = term.name + seq!['('];
    let inner: Seq<char> = term.axes + seq![')'];
    let plain: Seq<char> = term.name + seq!['('] + term.axes + seq![')'];
    assert(head + inner =~= plain);
    if let Some(bias) = term.bias {
        let tail: Seq<char> = bias + seq![')'];
        assert(plain + bias_mark() + tail =~= term.spelling());
        lemma_continues_append(text, at, plain + bias_mark(), tail);
        lemma_continues_append(text, at, plain, bias_mark());
        lemma_word_is_read(text, at + plain.len() + 6, false, ')', bias);
        assert(text.subrange(at + plain.len(), at + plain.len() + 6)[0] == '+');
    }
    lemma_continues_append(text, at, head, inner);
    lemma_word_is_read(text, at, true, '(', term.name);
    lemma_word_is_read(text, at + head.len(), false, ')', term.axes);
}

/// What was read is the list, as it stands in the text.
proof fn lemma_read_list(text: Seq<char>, at: int, biased: bool, before: Seq<TermView>)
    requires
        0 <= at <= text.len(),
    ensures
        read_list(text, at, biased, before) matches Some((terms, end)) ==> {
            &&& terms.len() > before.len()
            &&& terms.take(before.len() as int) == before
            &&& all_spellable(terms.skip(before.len() as int), biased)
            &&& at < end <= text.len()
            &&& end == at + list_spelling(terms.skip(before.len() as int)).len()
            &&& continues(text, at, list_spelling(terms.skip(before.len() as int)))
        },
    decreases text.len() - at,
{
    lemma_read_term(text, at, biased);
    if let Some((term, end)) = read_term(text, at, biased) {
        let n: int = before.len() as int;
        if end < text.len() && text[end] == ':' {
            lemma_read_list(text, end + 1, biased, before.push(term));
            if let Some((terms, last)) = read_list(text, at, biased, before) {
                let rest: Seq<TermView> = terms.skip(n + 1);
                let all: Seq<TermView> = terms.skip(n);
                assert(terms.take(n + 1) == before.push(term));
                assert(terms.take(n) =~= before) by {
                    assert forall|i: int| 0 <= i < n implies terms.take(n)[i] == before[i] by {
                        assert(terms.take(n + 1)[i] == before.push(term)[i]);
                    }
                }
                assert(terms[n] == term) by {
                    assert(terms.take(n + 1)[n] == before.push(term)[n]);
                }
                assert(all.skip(1) =~= rest);
                assert(all[0] == term);
                assert forall|i: int| 0 <= i < all.len() implies (#[trigger] all[i]).spellable(biased) by {
                    if i > 0 {
                        assert(rest[i - 1].spellable(biased));
                    }
                }
                assert(continues(text, end, seq![':'])) by {
                    assert(text.subrange(end, end + 1) =~= seq![':']);
                }
                lemma_continues_append(text, at, term.spelling(), seq![':']);
                lemma_continues_append(text, at, term.spelling() + seq![':'], list_spelling(rest));
                assert(list_spelling(all) == term.spelling() + seq![':'] + list_spelling(rest));
            }
        } else {
            let terms: Seq<TermView> = before.push(term);
            assert(terms.take(n) =~= before);
            assert(terms.skip(n) =~= seq![term]);
        }
    }
}

/// A list that stands in the text, and is followed by neither a sign nor a separator, is
/// read.
proof fn lemma_list_is_read(text: Seq<char>, at: int, biased: bool, before: Seq<TermView>, terms: Seq<TermView>)
    requires
        terms.len() > 0,
        all_spellable(terms, biased),
        continues(text, at, list_spelling(terms)),
        at + list_spelling(terms).len() < text.len() ==> {
            let next: char = text[at + list_spelling(terms).len()];
            next != '+' && next != ':'
        },
    ensures
        read_list(text, at, biased, before) == Some((before + terms, at + list_spelling(terms).len())),
    decreases terms.len(),
{
    let term: TermView = terms[0];
    let spelling: Seq<char> = term.spelling();
    if terms.len() == 1 {
        lemma_term_is_read(text, at, biased, term);
        assert(before.push(term) =~= before + terms);
    } else {
        let rest: Seq<TermView> = terms.skip(1);
        assert(list_spelling(terms) == spelling + seq![':'] + list_spelling(rest));
        lemma_continues_append(text, at, spelling + seq![':'], list_spelling(rest));
        lemma_continues_append(text, at, spelling, seq![':']);
        assert(text.subrange(at + spelling.len(), at + spelling.len() + 1)[0] == ':');
        assert(text[at + spelling.len()] == ':');
        lemma_term_is_read(text, at, biased, term);
        assert forall|i: int| 0 <= i < rest.len() implies (#[trigger] rest[i]).spellable(biased) by {
            assert(terms[i + 1].spellable(biased));
        }
        lemma_list_is_read(text, at + spelling.len() + 1, biased, before.push(term), rest);
        assert(before.push(term) + rest =~= before + terms);
    }
}

/// What was read is spelt as the text is.
proof fn lemma_read_equation(text: Seq<char>)
    ensures
        read_equation(text) matches Some(mapping) ==> mapping.spellable() && mapping.spelling() == text,
{
    if let Some(mapping) = read_equation(text) {
        lemma_read_term(text, 0, false);
        let (first, end): (TermView, int) = read_term(text, 0, false)->0;
        lemma_read_list(text, end + 1, false, seq![first]);
        let (inputs, arrow): (Seq<TermView>, int) = read_list(text, end + 1, false, seq![first])->0;
        lemma_read_list(text, arrow + 2, true, Seq::empty());
        let (outputs, last): (Seq<TermView>, int) = read_list(text, arrow + 2, true, Seq::empty())->0;
        let rest: Seq<TermView> = inputs.skip(1);
        assert(inputs[0] == first) by {
            assert(inputs.take(1)[0] == seq![first][0]);
        }
        assert forall|i: int| 0 <= i < inputs.len() implies (#[trigger] inputs[i]).spellable(false) by {
            if i > 0 {
                assert(rest[i - 1].spellable(false));
            }
        }
        assert(outputs.skip(0) =~= outputs);
        assert(continues(text, end, seq!['@'])) by {
            assert(text.subrange(end, end + 1) =~= seq!['@']);
        }
        let s1: Seq<char> = first.spelling() + seq!['@'];
        let s2: Seq<char> = s1 + list_spelling(rest);
        let s3: Seq<char> = s2 + seq!['-', '>'];
        lemma_continues_append(text, 0, first.spelling(), seq!['@']);
        lemma_continues_append(text, 0, s1, list_spelling(rest));
        lemma_continues_append(text, 0, s2, seq!['-', '>']);
        lemma_continues_append(text, 0, s3, list_spelling(outputs));
        assert(text.subrange(0, text.len() as int) =~= text);
    }
}

/// Where the parts of an equation stand in its spelling.
proof fn lemma_parts_of_spelling(text: Seq<char>, first: Seq<char>, rest: Seq<char>, outputs: Seq<char>)
    requires
        text == first + seq!['@'] + rest + seq!['-', '>'] + outputs,
    ensures
        text.len() == first.len() + rest.len() + outputs.len() + 3,
        continues(text, 0, first),
        text[first.len() as int] == '@',
        continues(text, first.len() as int + 1, rest),
        text[first.len() as int + 1 + rest.len() as int] == '-',
        continues(text, first.len() as int + 1 + rest.len() as int, seq!['-', '>']),
        continues(text, first.len() as int + rest.len() as int + 3, outputs),
{
    let s1: Seq<char> = first + seq!['@'];
    let s2: Seq<char> = s1 + rest;
    let s3: Seq<char> = s2 + seq!['-', '>'];
    assert(text.subrange(0, text.len() as int) =~= text);
    lemma_continues_append(text, 0, s3, outputs);
    lemma_continues_append(text, 0, s2, seq!['-', '>']);
    lemma_continues_append(text, 0, s1, rest);
    lemma_continues_append(text, 0, first, seq!['@']);
}

/// An equation that is spelt right is read as what it says.
proof fn lemma_equation_is_read(text: Seq<char>, mapping: MappingView)
    requires
        mapping.spellable(),
        text == mapping.spelling(),
    ensures
        read_equation(text) == Some(mapping),
{
    let first: TermView = mapping.inputs[0];
    let rest: Seq<TermView> = mapping.inputs.skip(1);
    let a: int = first.spelling().len() as int;
    let b: int = list_spelling(rest).len() as int;
    lemma_parts_of_spelling(text, first.spelling(), list_spelling(rest), list_spelling(mapping.outputs));
    assert(first.spellable(false));
    assert(read_term(text, 0, false) == Some((first, a))) by {
        lemma_term_is_read(text, 0, false, first);
    }
    assert forall|i: int| 0 <= i < rest.len() implies (#[trigger] rest[i]).spellable(false) by {
        assert(mapping.inputs[i + 1].spellable(false));
    }
    assert(read_list(text, a + 1, false, seq![first]) == Some((mapping.inputs, a + 1 + b))) by {
        lemma_list_is_read(text, a + 1, false, seq![first], rest);
        assert(seq![first] + rest =~= mapping.inputs);
    }
    assert(read_list(text, a + 1 + b + 2, true, Seq::empty()) == Some((mapping.outputs, text.len() as int))) by {
        lemma_list_is_read(text, a + 1 + b + 2, true, Seq::empty(), mapping.outputs);
        assert(Seq::<TermView>::empty() + mapping.outputs =~= mapping.outputs);
    }
}

/// Reading and writing are inverse: an equation that is spelt right is read back as what
/// was written, and a text that is read is the spelling of what was read.
pub proof fn law_reading_inverts_spelling(text: Seq<char>, mapping: MappingView)
    requires
        mapping.spellable(),
    ensures
        read_equation(mapping.spelling()) == Some(mapping),
        read_equation(text) == Some(mapping) <==> text == mapping.spelling(),
{
    lemma_equation_is_read(mapping.spelling(), mapping);
    lemma_read_equation(text);
}

/// A text is read exactly when it is the spelling of some equation.
pub proof fn law_readable_texts_are_spellings(text: Seq<char>)
    ensures
        read_equation(text) is Some <==> exists|mapping: MappingView|
            #[trigger] mapping.spellable() && mapping.spelling() == text,
        read_equation(text) matches Some(mapping) ==> mapping.spellable() && mapping.spelling() == text,
{
    lemma_read_equation(text);
    if exists|mapping: MappingView| #[trigger] mapping.spellable() && mapping.spelling() == text {
        let mapping: MappingView = choose|mapping: MappingView|
            #[trigger] mapping.spellable() && mapping.spelling() == text;
        lemma_equation_is_read(text, mapping);
    }
}

} // verus!
