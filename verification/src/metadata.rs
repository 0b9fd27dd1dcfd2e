//! Tokens, and what is known of a language model.

use crate::tensor::Element;
use vstd::prelude::*;
use vstd::std_specs::convert::FromSpec;

verus! {

/// A token: its place in the vocabulary.
#[derive(Debug, Clone, Copy, PartialEq, Eq, Structural, PartialOrd, Ord, Hash)]
pub struct Token(pub usize);

impl From<usize> for Token {
    fn from(id: usize) -> (token: Token) {
        Token(id)
    }
}

impl vstd::std_specs::convert::FromSpecImpl<usize> for Token {
    open spec fn obeys_from_spec() -> bool {
        true
    }

    open spec fn from_spec(id: usize) -> Token {
        Token(id)
    }
}

/// The element that stands for a token in a tensor.
pub open spec fn element_of(token: Token) -> Element {
    token.0 as i64
}

/// The place in the vocabulary that an element stands for.
pub open spec fn id_of(element: Element) -> usize {
    element as usize
}

impl Token {
    /// The element that stands for the token in a tensor.
    pub fn as_element(&self) -> (element: Element)
        ensures
            element == element_of(*self),
    {
        #[verifier::truncate]
        (self.0 as i64)
    }
}

/// The place in the vocabulary that an element stands for.
pub fn to_usize(element: Element) -> (id: usize)
    ensures
        id == id_of(element),
{
    #[verifier::truncate]
    (element as usize)
}

/// The figures that describe a language model.
#[derive(Debug)]
pub struct LLMConfig {
    pub model_name: String,
    /// The width of the hidden state.
    pub hidden_size: usize,
    /// The width of an embedded token.
    pub embedding_size: usize,
    /// The width inside a feed-forward block.
    pub intermediate_size: usize,
    /// The number of attention heads.
    pub num_heads: usize,
    /// The width of an attention head.
    pub head_size: usize,
    /// The number of decoder blocks.
    pub num_block: usize,
    /// The longest sequence that the model takes.
    pub context_length: usize,
    /// The bits of the single-precision number that normalisation adds to a variance.
    pub norm_epsilon_bits: u32,
    /// The number of tokens.
    pub vocab_size: usize,
    /// The token that ends a sentence.
    pub eos_token: Token,
}

impl Clone for LLMConfig {
    fn clone(&self) -> (copy: Self)
        ensures
            copy.same_as(self),
    {
        LLMConfig {
            model_name: self.model_name.clone(),
            hidden_size: self.hidden_size,
            embedding_size: self.embedding_size,
            intermediate_size: self.intermediate_size,
            num_heads: self.num_heads,
            head_size: self.head_size,
            num_block: self.num_block,
            context_length: self.context_length,
            norm_epsilon_bits: self.norm_epsilon_bits,
            vocab_size: self.vocab_size,
            eos_token: self.eos_token,
        }
    }
}

impl LLMConfig {
    /// Both describe the same model.
    pub open spec fn same_as(&self, other: &LLMConfig) -> bool {
        &&& self.model_name@ == other.model_name@
        &&& self.hidden_size == other.hidden_size
        &&& self.embedding_size == other.embedding_size
        &&& self.intermediate_size == other.intermediate_size
        &&& self.num_heads == other.num_heads
        &&& self.head_size == other.head_size
        &&& self.num_block == other.num_block
        &&& self.context_length == other.context_length
        &&& self.norm_epsilon_bits == other.norm_epsilon_bits
        &&& self.vocab_size == other.vocab_size
        &&& self.eos_token == other.eos_token
    }
}

/// What a driver keeps of a model besides its layers.
#[derive(Debug)]
pub struct LLMMetadata {
    pub config: LLMConfig,
    /// The node that chooses the token.
    pub argmax: usize,
}

impl Clone for LLMMetadata {
    fn clone(&self) -> (copy: Self)
        ensures
            copy.same_as(self),
    {
        LLMMetadata { config: self.config.clone(), argmax: self.argmax }
    }
}

impl LLMMetadata {
    /// Both describe the same model.
    pub open spec fn same_as(&self, other: &LLMMetadata) -> bool {
        &&& self.config.same_as(&other.config)
        &&& self.argmax == other.argmax
    }

    /// The number of tokens.
    pub fn vocab_size(&self) -> (size: usize)
        ensures
            size == self.config.vocab_size,
    {
        self.config.vocab_size
    }

    /// The longest sequence that the model takes.
    pub fn context_length(&self) -> (length: usize)
        ensures
            length == self.config.context_length,
    {
        self.config.context_length
    }
}

/// The longest sequence that is worked on: the configured window, or all that the model
/// takes.
pub open spec fn window(max_context: Option<usize>, md: LLMMetadata) -> usize {
    match max_context {
        Some(length) => length,
        None => md.config.context_length,
    }
}

/// The longest sequence that is worked on.
pub fn max_window(max_context: Option<usize>, md: &LLMMetadata) -> (length: usize)
    ensures
        length == window(max_context, *md),
{
    match max_context {
        Some(length) => length,
        None => md.context_length(),
    }
}

/// Where there is a window it is the longest sequence, and otherwise all that the model
/// takes.
pub proof fn law_window_is_the_configured_one(max_context: Option<usize>, md: LLMMetadata)
    ensures
        max_context matches Some(length) ==> window(max_context, md) == length,
        max_context is None ==> window(max_context, md) == md.config.context_length,
{
}

/// The element of a token is its place in the vocabulary, and the place that an element
/// stands for is the element, wherever both kinds of number hold it.
pub proof fn law_elements_are_places(token: Token, element: Element)
    ensures
        token.0 <= i64::MAX ==> element_of(token) as int == token.0 as int,
        0 <= element <= usize::MAX ==> id_of(element) as int == element as int,
        element_of(token) == token.0 as i64,
        id_of(element) == element as usize,
{
}

/// No two tokens that a tensor can hold have the same element.
pub proof fn law_tokens_have_their_own_elements(a: Token, b: Token)
    requires
        element_of(a) == element_of(b),
    ensures
        a == b,
{
    let x: usize = a.0;
    let y: usize = b.0;
    assert(x as i64 == y as i64 ==> x == y) by (bit_vector);
}

/// Descriptions of the same model agree in every figure.
pub proof fn law_same_descriptions_agree(a: LLMMetadata, b: LLMMetadata)
    ensures
        a.same_as(&b) <==> {
            &&& a.argmax == b.argmax
            &&& a.config.model_name@ == b.config.model_name@
            &&& a.config.hidden_size == b.config.hidden_size
            &&& a.config.embedding_size == b.config.embedding_size
            &&& a.config.intermediate_size == b.config.intermediate_size
            &&& a.config.num_heads == b.config.num_heads
            &&& a.config.head_size == b.config.head_size
            &&& a.config.num_block == b.config.num_block
            &&& a.config.context_length == b.config.context_length
            &&& a.config.norm_epsilon_bits == b.config.norm_epsilon_bits
            &&& a.config.vocab_size == b.config.vocab_size
            &&& a.config.eos_token.0 == b.config.eos_token.0
        },
        a.config.same_as(&b.config) && a.argmax == b.argmax ==> a.same_as(&b),
{
}

/// A token is made of its place, and of nothing else.
pub proof fn law_tokens_are_their_places(id: usize, other: usize)
    ensures
        Token::from_spec(id).0 == id,
        Token::from_spec(id) == Token::from_spec(other) ==> id == other,
{
}

} // verus!
