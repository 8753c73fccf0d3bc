//! The providers that requests go to, and what their responses cost.

pub mod anthropic;
pub mod openai;
pub mod payload;

use std::sync::Arc;

use tiktoken_rs::CoreBPE;
use vstd::prelude::*;
use vstd::string::*;

use crate::text::{optional_text, texts, to_chars};

use payload::{is_white_space, white_space};

pub use anthropic::{AnthropicAdapter, AnthropicEvent, AnthropicMessage, AnthropicUsage};
pub use openai::{OpenAiAdapter, OpenAiChoice, OpenAiPayload};

verus! {

/// An upstream provider.
#[derive(Debug, Clone, Copy, PartialEq, Eq, Structural)]
pub enum Provider {
    OpenAi,
    Anthropic,
}

/// What one event of a streamed response costs.
#[derive(Debug)]
pub struct ChunkCost {
    /// The tokens of the event's text, as a tokenizer counts them.
    pub estimated_tokens: u64,
    /// The tokens of the whole response so far, if the provider says.
    pub authoritative_total: Option<u64>,
    /// The names of the tools that the event invokes, never their arguments.
    pub tool_calls: Vec<String>,
}

/// The contents of a `ChunkCost`.
#[verifier::ext_equal]
pub struct ChunkCostModel {
    pub estimated_tokens: u64,
    pub authoritative_total: Option<u64>,
    pub tool_calls: Seq<Seq<char>>,
}

impl View for ChunkCost {
    type V = ChunkCostModel;

    open spec fn view(&self) -> ChunkCostModel {
        ChunkCostModel {
            estimated_tokens: self.estimated_tokens,
            authoritative_total: self.authoritative_total,
            tool_calls: texts(self.tool_calls@),
        }
    }
}

/// What a complete response costs.
#[derive(Debug)]
pub struct NonStreamingCost {
    /// The tokens of the response, if the provider says.
    pub total_tokens: Option<u64>,
    /// The names of the tools that the response invokes, never their arguments.
    pub tool_calls: Vec<String>,
}

/// The contents of a `NonStreamingCost`.
#[verifier::ext_equal]
pub struct NonStreamingModel {
    pub total_tokens: Option<u64>,
    pub tool_calls: Seq<Seq<char>>,
}

impl View for NonStreamingCost {
    type V = NonStreamingModel;

    open spec fn view(&self) -> NonStreamingModel {
        NonStreamingModel {
            total_tokens: self.total_tokens,
            tool_calls: texts(self.tool_calls@),
        }
    }
}

/// Reads what a provider's responses cost.
pub trait ProviderAdapter: Sized {
    /// `cost` is what the event `raw` may cost in the state that the adapter is
    /// in, and `after` is the adapter once it has read the event. An adapter
    /// that says nothing more may price events as it likes.
    open spec fn prices_event(&self, raw: Seq<u8>, cost: ChunkCostModel, after: Self) -> bool {
        true
    }

    /// `cost` is what the complete response `body` may cost. An adapter that
    /// says nothing more may price responses as it likes.
    open spec fn prices_body(&self, body: Seq<u8>, cost: NonStreamingModel) -> bool {
        true
    }

    /// What one event of a streamed response costs.
    fn chunk_cost(&mut self, raw: &[u8]) -> (cost: ChunkCost)
        ensures
            old(self).prices_event(raw@, cost@, *final(self)),
    ;

    /// What a complete response costs. Such a response always carries its own
    /// usage, so nothing is estimated.
    fn non_streaming_cost(&self, body: &[u8]) -> (cost: NonStreamingCost)
        ensures
            self.prices_body(body@, cost@),
    ;
}

/// Reads the JSON that providers send. What it cannot read it answers with
/// `None`.
pub trait PayloadDecoder {
    /// One data line of an OpenAI stream.
    fn openai_payload(&self, payload: &str) -> Option<OpenAiPayload>;

    /// A complete OpenAI response.
    fn openai_body(&self, body: &[u8]) -> Option<OpenAiPayload>;

    /// One data line of an Anthropic stream.
    fn anthropic_event(&self, payload: &str) -> Option<AnthropicEvent>;

    /// A complete Anthropic response.
    fn anthropic_body(&self, body: &[u8]) -> Option<AnthropicMessage>;
}

/// The values that are there, in order.
pub open spec fn present<T>(values: Seq<Option<T>>) -> Seq<T>
    decreases values.len(),
{
    if values.len() == 0 {
        Seq::empty()
    } else {
        match values.last() {
            Some(value) => present(values.drop_last()).push(value),
            None => present(values.drop_last()),
        }
    }
}

/// A number of tokens kept in 64 bits: it saturates instead of wrapping.
pub open spec fn capped(tokens: int) -> u64 {
    if tokens > u64::MAX { u64::MAX } else { tokens as u64 }
}

/// The texts of the names that are there, in order.
pub open spec fn named(names: Seq<Option<String>>) -> Seq<Seq<char>> {
    present(names.map_values(|name: Option<String>| optional_text(name)))
}

/// Appends the names that are there to `tools`.
pub(crate) fn append_named(tools: &mut Vec<String>, names: &Vec<Option<String>>)
    ensures
        texts(final(tools)@) == texts(old(tools)@) + named(names@),
{
    let ghost all = names@.map_values(|name: Option<String>| optional_text(name));
    let mut i: usize = 0;
    assert(texts(tools@) + present(all.take(0)) =~= texts(tools@));
    while i < names.len()
        invariant
            i <= names.len(),
            all == names@.map_values(|name: Option<String>| optional_text(name)),
            texts(tools@) == texts(old(tools)@) + present(all.take(i as int)),
        decreases names.len() - i,
    {
        assert(all.take(i + 1).drop_last() =~= all.take(i as int));
        assert(all.take(i + 1).last() == optional_text(names@[i as int]));
        if let Some(name) = &names[i] {
            let ghost before = tools@;
            tools.push(name.clone());
            assert(texts(tools@) =~= texts(before).push(name@));
            assert(texts(tools@) =~= texts(old(tools)@) + present(all.take(i + 1)));
        }
        i += 1;
    }
    assert(all.take(i as int) =~= all);
}

/// `tiktoken_rs::CoreBPE`, a byte-pair encoder with its vocabulary.
#[verifier::external_type_specification]
#[verifier::external_body]
pub struct ExCoreBPE(tiktoken_rs::CoreBPE);

/// The byte strings that an encoder knows, each with the token it stands for.
pub uninterp spec fn ranks_in(bpe: CoreBPE) -> Map<Seq<u8>, u32>;

/// The pattern by which an encoder cuts a text into words.
pub uninterp spec fn pattern_in(bpe: CoreBPE) -> Seq<char>;

/// The tokens that `CoreBPE::encode_ordinary` makes of a text with this
/// vocabulary and this pattern, special tokens taken as plain text.
pub uninterp spec fn bpe_tokens(
    ranks: Map<Seq<u8>, u32>,
    pattern: Seq<char>,
    text: Seq<char>,
) -> Seq<u32>;

/// The pattern that goes with the cl100k vocabulary.
pub const CL100K_PATTERN: &'static str =
    "(?i:'s|'t|'re|'ve|'m|'ll|'d)|[^\\r\\n\\p{L}\\p{N}]?\\p{L}+|\\p{N}{1,3}| ?[^\\s\\p{L}\\p{N}]+[\\r\\n]*|\\s*[\\r\\n]+|\\s+(?!\\S)|\\s+";

/// What a tokenizer goes by: the byte strings that it knows, each with its
/// token, and the pattern by which it cuts a text into words.
pub struct Vocabulary {
    pub ranks: Map<Seq<u8>, u32>,
    pub pattern: Seq<char>,
}

/// Every byte has a token, so that any text can be put together.
pub open spec fn knows_every_byte(ranks: Map<Seq<u8>, u32>) -> bool {
    forall|b: u8| #[trigger] ranks.contains_key(seq![b])
}

/// The tokens of a text.
pub open spec fn tokens_of(vocabulary: Vocabulary, text: Seq<char>) -> Seq<u32> {
    bpe_tokens(vocabulary.ranks, vocabulary.pattern, text)
}

/// How many characters may stand together without a place where the cl100k
/// pattern is sure to cut. Its matcher keeps a branch for each character of a
/// word and gives up at a million.
pub const STRETCH: usize = 999_900;

/// `\r` or `\n`, the only characters that the pattern takes for line ends.
pub open spec fn is_line_end(c: char) -> bool {
    c == '\r' || c == '\n'
}

pub open spec fn is_ascii(c: char) -> bool {
    c as u32 <= 0x7f
}

pub open spec fn is_ascii_letter(c: char) -> bool {
    ('a' <= c && c <= 'z') || ('A' <= c && c <= 'Z')
}

pub open spec fn is_ascii_digit(c: char) -> bool {
    '0' <= c && c <= '9'
}

/// The cl100k pattern is sure to cut between two such characters: none of its
/// words takes in both. White space that is no line end never follows anything
/// else in a word, nothing but white space follows a line end, and a letter or
/// a digit is followed by its like alone.
pub open spec fn cuts(a: char, b: char) -> bool {
    ||| !is_white_space(a) && is_white_space(b) && !is_line_end(b)
    ||| is_line_end(a) && !is_white_space(b)
    ||| is_ascii_letter(a) && is_ascii(b) && !is_ascii_letter(b)
    ||| is_ascii_digit(a) && is_ascii(b) && !is_ascii_digit(b)
}

/// The `STRETCH` characters from `start` on have no place among them where the
/// pattern is sure to cut.
pub open spec fn uncut_from(text: Seq<char>, start: int) -> bool {
    &&& 0 <= start <= text.len() - STRETCH
    &&& forall|i: int| start < i < start + STRETCH ==> !(#[trigger] cuts_at(text, i))
}

/// The pattern is sure to cut before the character at `i`.
pub open spec fn cuts_at(text: Seq<char>, i: int) -> bool {
    cuts(text[i - 1], text[i])
}

/// A text that can be encoded in one go: no word of it can be too long.
pub open spec fn encodable(text: Seq<char>) -> bool {
    forall|start: int| !(#[trigger] uncut_from(text, start))
}

/// `start` is where the first stretch without a sure cut begins.
pub open spec fn first_uncut(text: Seq<char>, start: int) -> bool {
    &&& uncut_from(text, start)
    &&& forall|i: int| i < start ==> !(#[trigger] uncut_from(text, i))
}

/// Where a text that cannot be encoded in one go is cut: inside the first
/// stretch without a sure cut, as late as the encoder allows.
pub open spec fn cut_of(text: Seq<char>) -> int {
    (choose|start: int| first_uncut(text, start)) + STRETCH - 1
}

/// How many tokens a text has. One that cannot be encoded in one go is cut
/// inside each stretch that is too long. (Such a cut always lies inside the
/// text.)
pub open spec fn token_count(vocabulary: Vocabulary, text: Seq<char>) -> nat
    decreases text.len(),
{
    if encodable(text) || !(0 < cut_of(text) <= text.len()) {
        tokens_of(vocabulary, text).len()
    } else {
        tokens_of(vocabulary, text.take(cut_of(text))).len() + token_count(
            vocabulary,
            text.skip(cut_of(text)),
        )
    }
}

fn is_sure_cut(a: char, b: char) -> (yes: bool)
    ensures
        yes == cuts(a, b),
{
    let letter_a = ('a' <= a && a <= 'z') || ('A' <= a && a <= 'Z');
    let letter_b = ('a' <= b && b <= 'z') || ('A' <= b && b <= 'Z');
    let digit_a = '0' <= a && a <= '9';
    let digit_b = '0' <= b && b <= '9';
    let end_a = a == '\r' || a == '\n';
    let end_b = b == '\r' || b == '\n';
    let ascii_b = b as u32 <= 0x7f;
    (!white_space(a) && white_space(b) && !end_b) || (end_a && !white_space(b)) || (letter_a
        && ascii_b && !letter_b) || (digit_a && ascii_b && !digit_b)
}

/// Where to cut a text that cannot be encoded in one go.
fn find_cut(text: &str) -> (cut: Option<usize>)
    ensures
        match cut {
            Some(cut) => {
                &&& !encodable(text@)
                &&& cut == cut_of(text@)
                &&& 0 < cut < text@.len()
                &&& encodable(text@.take(cut as int))
            },
            None => encodable(text@),
        },
{
    let chars = to_chars(text);
    let ghost all = text@;
    let mut from: usize = 0;
    let mut i: usize = 0;
    while i < chars.len()
        invariant
            all == text@,
            all == chars@,
            from <= i <= chars.len(),
            from == i ==> i == 0,
            i - from < STRETCH,
            forall|j: int| from < j < i ==> !(#[trigger] cuts_at(all, j)),
            from == 0 || cuts_at(all, from as int),
            forall|start: int| start <= i - STRETCH ==> !(#[trigger] uncut_from(all, start)),
        decreases chars.len() - i,
    {
        if i > 0 && is_sure_cut(chars[i - 1], chars[i]) {
            assert(cuts_at(all, i as int));
            from = i;
        }
        if i + 1 - from == STRETCH {
            let cut: usize = i;
            proof {
                let start = from as int;
                assert(uncut_from(all, start));
                assert(first_uncut(all, start));
                let chosen = choose|start: int| first_uncut(all, start);
                assert(chosen == start);
                let head = all.take(cut as int);
                assert forall|s: int| !(#[trigger] uncut_from(head, s)) by {
                    if uncut_from(head, s) {
                        assert(!uncut_from(all, s));
                        assert forall|j: int| s < j < s + STRETCH implies !(#[trigger] cuts_at(
                            all,
                            j,
                        )) by {
                            assert(cuts_at(head, j) == cuts_at(all, j));
                        }
                    }
                }
            }
            return Some(cut);
        }
        proof {
            let start = i + 1 - STRETCH;
            if uncut_from(all, start) {
                assert(from > start);
                assert(cuts_at(all, from as int));
            }
        }
        i += 1;
    }
    None
}

/// Calls `tiktoken_rs::cl100k_base`: the encoder has the pattern that goes with
/// the cl100k vocabulary, and a token for every byte. What its other tokens are
/// is left unsaid: the table that is built into the crate has a hundred thousand
/// of them.
#[verifier::external_body]
fn load_cl100k() -> (bpe: CoreBPE)
    ensures
        pattern_in(bpe) == CL100K_PATTERN@,
        knows_every_byte(ranks_in(bpe)),
{
    tiktoken_rs::cl100k_base().expect("bundled cl100k tokenizer")
}

/// Counts tokens with the cl100k vocabulary.
pub struct Tokenizer {
    bpe: CoreBPE,
}

impl Tokenizer {
    /// What the tokenizer goes by.
    pub closed spec fn vocabulary(&self) -> Vocabulary {
        Vocabulary { ranks: ranks_in(self.bpe), pattern: pattern_in(self.bpe) }
    }

    /// The tokenizer can encode any text.
    #[verifier::type_invariant]
    spec fn is_usable(self) -> bool {
        pattern_in(self.bpe) == CL100K_PATTERN@ && knows_every_byte(ranks_in(self.bpe))
    }

    /// Loads the cl100k vocabulary and its pattern.
    pub fn load() -> (tokenizer: Self)
        ensures
            tokenizer.vocabulary().pattern == CL100K_PATTERN@,
            knows_every_byte(tokenizer.vocabulary().ranks),
    {
        Tokenizer { bpe: load_cl100k() }
    }

    /// Calls `CoreBPE::encode_ordinary`: the tokens depend on the vocabulary, the
    /// pattern and the text alone. Vocabularies that lack a byte are left out,
    /// since the encoder panics where it needs it. So are other patterns, and
    /// texts in which `STRETCH` characters stand together without a sure cut:
    /// the matcher of the encoder panics on a word of a million characters.
    #[verifier::external_body]
    fn encode(&self, text: &str) -> (tokens: Vec<u32>)
        requires
            pattern_in(self.bpe) == CL100K_PATTERN@,
            knows_every_byte(ranks_in(self.bpe)),
            encodable(text@),
        ensures
            tokens@ == bpe_tokens(ranks_in(self.bpe), pattern_in(self.bpe), text@),
    {
        self.bpe.encode_ordinary(text)
    }

    /// How many tokens a text has.
    pub fn count(&self, text: &str) -> (tokens: u64)
        ensures
            tokens == capped(token_count(self.vocabulary(), text@) as int),
    {
        proof {
            use_type_invariant(self);
        }
        let ghost all = text@;
        let ghost vocabulary = self.vocabulary();
        let mut rest = text;
        let mut tokens: u64 = 0;
        loop
            invariant
                vocabulary == self.vocabulary(),
                pattern_in(self.bpe) == CL100K_PATTERN@,
                knows_every_byte(ranks_in(self.bpe)),
                capped(tokens + token_count(vocabulary, rest@)) == capped(
                    token_count(vocabulary, all) as int,
                ),
                all == text@,
            decreases rest@.len(),
        {
            let ghost before = rest@;
            match find_cut(rest) {
                Some(cut) => {
                    let length: usize = rest.unicode_len();
                    let piece = rest.substring_char(0, cut);
                    assert(before.take(cut as int) =~= piece@);
                    tokens = tokens.saturating_add(self.encode(piece).len() as u64);
                    rest = rest.substring_char(cut, length);
                    assert(before.skip(cut as int) =~= rest@);
                },
                None => {
                    return tokens.saturating_add(self.encode(rest).len() as u64);
                },
            }
        }
    }

    /// An adapter for a provider's responses.
    pub fn new_adapter<D: PayloadDecoder>(
        tokenizer: Arc<Tokenizer>,
        provider: Provider,
        decoder: D,
    ) -> (adapter: Adapter<D>)
        ensures
            match provider {
                Provider::OpenAi => adapter matches Adapter::OpenAi(a) && a.decoder() == decoder
                    && a.vocabulary() == tokenizer.vocabulary(),
                Provider::Anthropic => adapter matches Adapter::Anthropic(a) && a.decoder()
                    == decoder && a.vocabulary() == tokenizer.vocabulary() && a.input_tokens()
                    == 0,
            },
    {
        match provider {
            Provider::OpenAi => Adapter::OpenAi(OpenAiAdapter::new(tokenizer, decoder)),
            Provider::Anthropic => Adapter::Anthropic(AnthropicAdapter::new(tokenizer, decoder)),
        }
    }
}

/// The adapter of either provider.
pub enum Adapter<D: PayloadDecoder> {
    OpenAi(OpenAiAdapter<D>),
    Anthropic(AnthropicAdapter<D>),
}

impl<D: PayloadDecoder> ProviderAdapter for Adapter<D> {
    open spec fn prices_event(&self, raw: Seq<u8>, cost: ChunkCostModel, after: Self) -> bool {
        match (self, after) {
            (Adapter::OpenAi(adapter), Adapter::OpenAi(after)) => adapter.prices_event(
                raw,
                cost,
                after,
            ),
            (Adapter::Anthropic(adapter), Adapter::Anthropic(after)) => adapter.prices_event(
                raw,
                cost,
                after,
            ),
            _ => false,
        }
    }

    open spec fn prices_body(&self, body: Seq<u8>, cost: NonStreamingModel) -> bool {
        match self {
            Adapter::OpenAi(adapter) => adapter.prices_body(body, cost),
            Adapter::Anthropic(adapter) => adapter.prices_body(body, cost),
        }
    }

    fn chunk_cost(&mut self, raw: &[u8]) -> ChunkCost {
        match self {
            Adapter::OpenAi(adapter) => adapter.chunk_cost(raw),
            Adapter::Anthropic(adapter) => adapter.chunk_cost(raw),
        }
    }

    fn non_streaming_cost(&self, body: &[u8]) -> NonStreamingCost {
        match self {
            Adapter::OpenAi(adapter) => adapter.non_streaming_cost(body),
            Adapter::Anthropic(adapter) => adapter.non_streaming_cost(body),
        }
    }
}

pub(crate) proof fn lemma_present_of_concatenation<T>(a: Seq<Option<T>>, b: Seq<Option<T>>)
    ensures
        present(a + b) == present(a) + present(b),
    decreases b.len(),
{
    if b.len() == 0 {
        assert(a + b =~= a);
        assert(present(a) + present(b) =~= present(a));
    } else {
        assert((a + b).drop_last() =~= a + b.drop_last());
        lemma_present_of_concatenation(a, b.drop_last());
        assert(present(a + b) =~= present(a) + present(b));
    }
}

/// Law: of a list, exactly the values that are there are kept, each of them, in
/// order.
pub proof fn law_present_values_are_kept<T>(a: Seq<Option<T>>, b: Seq<Option<T>>, value: T)
    ensures
        present(Seq::<Option<T>>::empty()).len() == 0,
        present(seq![Some(value)]) == seq![value],
        present(seq![None::<T>]).len() == 0,
        present(a + b) == present(a) + present(b),
{
    lemma_present_of_concatenation(a, b);
    let one = seq![Some(value)];
    let none = seq![None::<T>];
    assert(one.drop_last() =~= Seq::empty());
    assert(present(one.drop_last()) =~= Seq::<T>::empty());
    assert(one.last() == Some(value));
    assert(present(one) =~= seq![value]);
    assert(none.drop_last() =~= Seq::empty());
    assert(present(none.drop_last()) =~= Seq::<T>::empty());
    assert(none.last() is None);
}

/// Law: of the names of some tool calls, exactly those that are there are kept,
/// each of them, in order.
pub proof fn law_every_name_is_kept(
    a: Seq<Option<String>>,
    b: Seq<Option<String>>,
    name: String,
)
    ensures
        named(Seq::empty()).len() == 0,
        named(seq![Some(name)]) == seq![name@],
        named(seq![None]).len() == 0,
        named(a + b) == named(a) + named(b),
{
    let text = |name: Option<String>| optional_text(name);
    assert((a + b).map_values(text) =~= a.map_values(text) + b.map_values(text));
    lemma_present_of_concatenation(a.map_values(text), b.map_values(text));
    assert(seq![Some(name)].map_values(text) =~= seq![Some(name@)]);
    assert(seq![None::<String>].map_values(text) =~= seq![None::<Seq<char>>]);
    assert(Seq::<Option<String>>::empty().map_values(text) =~= Seq::empty());
    law_present_values_are_kept::<Seq<char>>(Seq::empty(), Seq::empty(), name@);
}

pub(crate) proof fn lemma_named_contains(names: Seq<Option<String>>, k: int)
    requires
        0 <= k < names.len(),
        names[k] is Some,
    ensures
        named(names).contains(names[k]->0@),
    decreases names.len(),
{
    let rest = names.drop_last();
    let last = seq![names.last()];
    let name = names[k]->0;
    assert(names =~= rest + last);
    law_every_name_is_kept(rest, last, name);
    if k < names.len() - 1 {
        lemma_named_contains(rest, k);
        let i = choose|i: int| 0 <= i < named(rest).len() && named(rest)[i] == name@;
        assert(named(names)[i] == name@);
    } else {
        assert(last =~= seq![Some(name)]);
        assert(named(names)[named(rest).len() as int] == name@);
    }
}

/// Law: every tool that is named is among the names that are kept, wherever it
/// stands.
pub proof fn law_no_name_is_overlooked(names: Seq<Option<String>>, k: int)
    requires
        0 <= k < names.len(),
        names[k] is Some,
    ensures
        named(names).contains(names[k]->0@),
{
    lemma_named_contains(names, k);
}

/// Law: a number of tokens is kept as it is as long as 64 bits can hold it.
pub proof fn law_token_numbers_are_kept(tokens: int)
    ensures
        0 <= tokens <= u64::MAX ==> capped(tokens) == tokens,
        tokens > u64::MAX ==> capped(tokens) == u64::MAX,
{
}

/// Among the 999,900 characters from `start` on there is a place where a word is
/// sure to end.
pub open spec fn has_sure_cut(text: Seq<char>, start: int) -> bool {
    exists|i: int| start < i < start + 999_900 && #[trigger] cuts_at(text, i)
}

/// Law: a text has as many tokens as the encoder makes of it in one go, unless
/// 999,900 characters of it stand together without a place where one word is
/// sure to end: white space that is no line end behind something else, anything
/// but white space behind a line end, or an ASCII letter or digit before an
/// ASCII character of another kind.
pub proof fn law_texts_are_encoded_in_one_go(vocabulary: Vocabulary, text: Seq<char>)
    requires
        forall|start: int|
            0 <= start <= text.len() - 999_900 ==> #[trigger] has_sure_cut(text, start),
    ensures
        token_count(vocabulary, text) == bpe_tokens(
            vocabulary.ranks,
            vocabulary.pattern,
            text,
        ).len(),
{
    assert forall|start: int| !(#[trigger] uncut_from(text, start)) by {
        if uncut_from(text, start) {
            assert(has_sure_cut(text, start));
        }
    }
}

/// Law: a text of less than 999,900 characters is always encoded in one go.
pub proof fn law_short_texts_are_encoded_in_one_go(vocabulary: Vocabulary, text: Seq<char>)
    requires
        text.len() < 999_900,
    ensures
        token_count(vocabulary, text) == bpe_tokens(
            vocabulary.ranks,
            vocabulary.pattern,
            text,
        ).len(),
{
    assert forall|start: int| !(#[trigger] uncut_from(text, start)) by {}
}

/// Law: a word is sure to end in these places and no others: before white space
/// that is no line end and stands behind something else, behind a line end that
/// no white space follows, and behind an ASCII letter or digit that an ASCII
/// character of another kind follows.
pub proof fn law_sure_cuts(a: char, b: char)
    ensures
        cuts(a, b) <==> {
            ||| !is_white_space(a) && is_white_space(b) && b != '\r' && b != '\n'
            ||| (a == '\r' || a == '\n') && !is_white_space(b)
            ||| ('a' <= a <= 'z' || 'A' <= a <= 'Z') && b <= '\x7f' && !('a' <= b <= 'z') && !('A'
                <= b <= 'Z')
            ||| '0' <= a <= '9' && b <= '\x7f' && !('0' <= b <= '9')
        },
{
}

/// The tokens that the encoder makes of some pieces, all in all.
pub open spec fn piece_tokens(vocabulary: Vocabulary, pieces: Seq<Seq<char>>) -> nat
    decreases pieces.len(),
{
    if pieces.len() == 0 {
        0
    } else {
        bpe_tokens(vocabulary.ranks, vocabulary.pattern, pieces[0]).len() + piece_tokens(
            vocabulary,
            pieces.skip(1),
        )
    }
}

/// `pieces` make up `text`, one after the other, and each is as long as the
/// encoder allows but for the last.
pub open spec fn makes_up(pieces: Seq<Seq<char>>, text: Seq<char>) -> bool
    decreases pieces.len(),
{
    if pieces.len() == 0 {
        false
    } else if pieces.len() == 1 {
        pieces[0] == text
    } else {
        &&& 999_899 <= pieces[0].len() <= text.len()
        &&& pieces[0] == text.take(pieces[0].len() as int)
        &&& makes_up(pieces.skip(1), text.skip(pieces[0].len() as int))
    }
}

/// Law: no part of a text goes uncounted: its tokens are those of pieces that
/// make it up.
pub proof fn law_no_text_goes_uncounted(vocabulary: Vocabulary, text: Seq<char>) -> (pieces: Seq<
    Seq<char>,
>)
    ensures
        makes_up(pieces, text),
        token_count(vocabulary, text) == piece_tokens(vocabulary, pieces),
    decreases text.len(),
{
    let cut = cut_of(text);
    if encodable(text) || !(0 < cut <= text.len()) {
        let pieces = seq![text];
        assert(pieces.skip(1) =~= Seq::empty());
        assert(piece_tokens(vocabulary, pieces.skip(1)) == 0);
        pieces
    } else {
        lemma_first_uncut_exists(text);
        let rest = law_no_text_goes_uncounted(vocabulary, text.skip(cut));
        let pieces = seq![text.take(cut)] + rest;
        assert(pieces.skip(1) =~= rest);
        assert(pieces.len() > 1);
        pieces
    }
}

proof fn lemma_first_uncut_exists(text: Seq<char>)
    requires
        !encodable(text),
    ensures
        cut_of(text) >= STRETCH - 1,
{
    let some = choose|start: int| uncut_from(text, start);
    lemma_first_uncut_up_to(text, some);
    let first = choose|start: int| first_uncut(text, start);
    assert(first_uncut(text, first));
}

proof fn lemma_first_uncut_up_to(text: Seq<char>, start: int)
    requires
        uncut_from(text, start),
    ensures
        exists|first: int| first_uncut(text, first),
    decreases start,
{
    if exists|i: int| i < start && uncut_from(text, i) {
        let i = choose|i: int| i < start && uncut_from(text, i);
        lemma_first_uncut_up_to(text, i);
    } else {
        assert(first_uncut(text, start));
    }
}

/// Law: the cost of an event, or of a response, shows its fields.
pub proof fn law_costs_show_their_fields(cost: ChunkCost, whole: NonStreamingCost)
    ensures
        cost@.estimated_tokens == cost.estimated_tokens,
        cost@.authoritative_total == cost.authoritative_total,
        cost@.tool_calls == texts(cost.tool_calls@),
        whole@.total_tokens == whole.total_tokens,
        whole@.tool_calls == texts(whole.tool_calls@),
{
}

/// Law: the adapter of either provider prices as that provider's own does, and
/// never turns into the other.
pub proof fn law_adapters_price_as_their_provider_does<D: PayloadDecoder>(
    openai: OpenAiAdapter<D>,
    next: OpenAiAdapter<D>,
    anthropic: AnthropicAdapter<D>,
    after: AnthropicAdapter<D>,
    raw: Seq<u8>,
    cost: ChunkCostModel,
    whole: NonStreamingModel,
)
    ensures
        Adapter::OpenAi(openai).prices_event(raw, cost, Adapter::OpenAi(next))
            == openai.prices_event(raw, cost, next),
        Adapter::Anthropic(anthropic).prices_event(raw, cost, Adapter::Anthropic(after))
            == anthropic.prices_event(raw, cost, after),
        !Adapter::OpenAi(openai).prices_event(raw, cost, Adapter::Anthropic(after)),
        !Adapter::Anthropic(anthropic).prices_event(raw, cost, Adapter::OpenAi(next)),
        Adapter::OpenAi(openai).prices_body(raw, whole) == openai.prices_body(raw, whole),
        Adapter::Anthropic(anthropic).prices_body(raw, whole) == anthropic.prices_body(raw, whole),
{
}

/// Law: a tokenizer cuts texts by the cl100k pattern, and by no other.
pub proof fn law_the_pattern_is_that_of_cl100k()
    ensures
        CL100K_PATTERN@
            == "(?i:'s|'t|'re|'ve|'m|'ll|'d)|[^\\r\\n\\p{L}\\p{N}]?\\p{L}+|\\p{N}{1,3}| ?[^\\s\\p{L}\\p{N}]+[\\r\\n]*|\\s*[\\r\\n]+|\\s+(?!\\S)|\\s+"@,
{
}

} // verus!
