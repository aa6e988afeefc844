//! Decoding failures with byte offsets and enclosing context.

use crate::config::text::{push_str, push_unsigned, decimal};
use vstd::prelude::*;

verus! {

/// The mathematical content of a [`DecodeError`].
pub struct DecodeErrorView {
    pub offset: usize,
    pub message: Seq<char>,
    pub contexts: Seq<Seq<char>>,
}

/// A binary decoding failure with the byte offset and optional field context.
#[derive(Debug, Clone, PartialEq, Eq)]
pub struct DecodeError {
    offset: usize,
    message: String,
    contexts: Vec<String>,
}

/// The contexts written outermost first, each followed by `": "`.
pub open spec fn context_prefix(contexts: Seq<Seq<char>>) -> Seq<char>
    decreases contexts.len(),
{
    if contexts.len() == 0 {
        Seq::empty()
    } else {
        contexts.last() + seq![':', ' '] + context_prefix(contexts.drop_last())
    }
}

/// The readable text of a decoding failure.
pub open spec fn decode_error_text(e: DecodeErrorView) -> Seq<char> {
    context_prefix(e.contexts) + seq!['b', 'y', 't', 'e', ' '] + decimal(e.offset as int) + seq![
        ':',
        ' ',
    ] + e.message
}

impl View for DecodeError {
    type V = DecodeErrorView;

    closed spec fn view(&self) -> DecodeErrorView {
        DecodeErrorView { offset: self.offset, message: self.message@, contexts: self.contexts.deep_view() }
    }
}

impl DecodeError {
    /// Creates an error at `offset` with the supplied diagnostic `message`.
    pub fn new(offset: usize, message: &str) -> (e: Self)
        ensures
            e@ == (DecodeErrorView { offset, message: message@, contexts: Seq::empty() }),
    {
        let mut m = String::new();
        push_str(&mut m, message);
        assert(m@ =~= message@);
        let contexts: Vec<String> = Vec::new();
        let e = DecodeError { offset, message: m, contexts };
        assert(e@.contexts =~= Seq::<Seq<char>>::empty());
        e
    }

    /// Creates an error at `offset` with an owned diagnostic `message`.
    pub fn with_message(offset: usize, message: String) -> (e: Self)
        ensures
            e@ == (DecodeErrorView { offset, message: message@, contexts: Seq::empty() }),
    {
        let contexts: Vec<String> = Vec::new();
        let e = DecodeError { offset, message, contexts };
        assert(e@.contexts =~= Seq::<Seq<char>>::empty());
        e
    }

    /// Adds an enclosing file, table, record, or field name and returns the error.
    pub fn context(self, context: String) -> (e: Self)
        ensures
            e@ == (DecodeErrorView { contexts: self@.contexts.push(context@), ..self@ }),
    {
        let mut s = self;
        s.contexts.push(context);
        assert(s.contexts.deep_view() =~= self@.contexts.push(context@));
        s
    }

    /// Returns the byte offset at which decoding failed.
    pub fn offset(&self) -> (o: usize)
        ensures
            o == self@.offset,
    {
        self.offset
    }

    /// Returns the diagnostic message without its context.
    pub fn message(&self) -> (m: &str)
        ensures
            m@ == self@.message,
    {
        self.message.as_str()
    }

    /// The readable text: enclosing contexts outermost first, then the byte offset
    /// and the message.
    pub fn to_text(&self) -> (s: String)
        ensures
            s@ == decode_error_text(self@),
    {
        let mut s = String::new();
        let n = self.contexts.len();
        let mut i: usize = n;
        while i > 0
            invariant
                i <= n,
                n == self.contexts@.len(),
                s@ == suffix_prefix(self@.contexts, i as int),
            decreases i,
        {
            i = i - 1;
            let ghost before = s@;
            push_str(&mut s, self.contexts[i].as_str());
            push_str(&mut s, ": ");
            proof {
                reveal_strlit(": ");
                lemma_suffix_prefix_step(self@.contexts, i as int);
                assert(s@ =~= before + self@.contexts[i as int] + seq![':', ' ']);
                assert(s@ =~= suffix_prefix(self@.contexts, i as int));
            }
        }
        proof {
            lemma_suffix_prefix_full(self@.contexts);
        }
        push_str(&mut s, "byte ");
        push_unsigned(&mut s, self.offset as u64);
        push_str(&mut s, ": ");
        push_str(&mut s, self.message.as_str());
        proof {
            reveal_strlit("byte ");
            reveal_strlit(": ");
        }
        assert(s@ =~= decode_error_text(self@));
        s
    }
}

/// The text written for contexts `i..` (outermost first).
pub open spec fn suffix_prefix(contexts: Seq<Seq<char>>, i: int) -> Seq<char>
    decreases contexts.len() - i,
{
    if i >= contexts.len() || i < 0 {
        Seq::empty()
    } else {
        suffix_prefix(contexts, i + 1) + contexts[i] + seq![':', ' ']
    }
}

proof fn lemma_suffix_prefix_step(contexts: Seq<Seq<char>>, i: int)
    requires
        0 <= i < contexts.len(),
    ensures
        suffix_prefix(contexts, i) == suffix_prefix(contexts, i + 1) + contexts[i] + seq![':', ' '],
{
}

proof fn lemma_suffix_prefix_full(contexts: Seq<Seq<char>>)
    ensures
        suffix_prefix(contexts, 0) == context_prefix(contexts),
    decreases contexts.len(),
{
    if contexts.len() > 0 {
        let d = contexts.drop_last();
        lemma_suffix_prefix_full(d);
        lemma_suffix_prefix_drop_last(contexts, 0);
    }
}

proof fn lemma_suffix_prefix_drop_last(contexts: Seq<Seq<char>>, i: int)
    requires
        contexts.len() > 0,
        0 <= i < contexts.len(),
    ensures
        suffix_prefix(contexts, i) == contexts.last() + seq![':', ' '] + suffix_prefix(
            contexts.drop_last(),
            i,
        ),
    decreases contexts.len() - i,
{
    if i + 1 < contexts.len() {
        lemma_suffix_prefix_drop_last(contexts, i + 1);
        assert(contexts.drop_last()[i] == contexts[i]);
        assert(suffix_prefix(contexts, i) =~= contexts.last() + seq![':', ' '] + suffix_prefix(
            contexts.drop_last(),
            i,
        ));
    } else {
        assert(suffix_prefix(contexts.drop_last(), i) == Seq::<char>::empty());
        assert(suffix_prefix(contexts, i + 1) == Seq::<char>::empty());
        assert(suffix_prefix(contexts, i) =~= contexts.last() + seq![':', ' ']);
    }
}

} // verus!
