//! What the engine is told before a chunk: the words that came last and the names that
//! are likely to come, within a budget of bytes.

use vstd::prelude::*;

use crate::model::TranscriptSegmentDto;
use crate::single::{self, Single};
use crate::text;
use crate::vad::{self, SourceVadState};

verus! {

/// The most bytes of text that a stream keeps.
pub const MAX_ACCUMULATED_TEXT_CHARS: usize = 1000;

/// The budget of a prompt where the request does not say.
pub const DEFAULT_PROMPT_CHARS: u32 = 350;

/// The most bytes of names in a prompt.
pub const VOCABULARY_BYTES: usize = 80;

/// After how much silence a prompt is forgotten where the request does not say: five
/// seconds.
pub const DEFAULT_DECAY_BITS: u32 = 0x40a0_0000;

/// The prompt that the streams of one loop share.
#[derive(Debug)]
pub struct PromptState {
    pub shared_prompt: String,
    /// When a chunk was last transcribed.
    pub last_transcription_at: Option<u64>,
}

/// The budget of a prompt.
pub open spec fn budget(prompt_context_chars: Option<u32>) -> nat {
    match prompt_context_chars {
        Some(n) => n as nat,
        None => DEFAULT_PROMPT_CHARS as nat,
    }
}

/// The budget of a prompt.
pub fn prompt_budget(prompt_context_chars: Option<u32>) -> (r: usize)
    ensures
        r == budget(prompt_context_chars),
        prompt_context_chars matches Some(n) ==> r == n,
        prompt_context_chars is None ==> r == 350,
{
    match prompt_context_chars {
        Some(n) => n as usize,
        None => DEFAULT_PROMPT_CHARS as usize,
    }
}

// --- Building a prompt ---

/// The names that a prompt opens with.
pub open spec fn vocabulary_part(vocabulary: Seq<char>) -> Seq<char> {
    text::head_within(vocabulary, VOCABULARY_BYTES as nat)
}

/// The last words that fit behind the names: what the names and the two characters
/// behind them leave of the budget.
pub open spec fn context_part(vocabulary: Seq<char>, context: Seq<char>, max: nat) -> Seq<char> {
    let taken = text::byte_len(vocabulary_part(vocabulary));
    let spent: nat = if taken > 0 {
        taken + 2
    } else {
        0
    };
    text::tail_within(
        context,
        if max >= spent {
            (max - spent) as nat
        } else {
            0
        },
    )
}

/// The prompt of a chunk: names, a full stop and the last words; either alone; none
/// where there is neither.
pub open spec fn effective_prompt(vocabulary: Seq<char>, context: Seq<char>, max: nat) -> Option<
    Seq<char>,
> {
    let names = vocabulary_part(vocabulary);
    let words = context_part(vocabulary, context, max);
    if context.len() == 0 && names.len() == 0 {
        None
    } else if names.len() > 0 && words.len() > 0 {
        Some(names + ". "@ + words)
    } else if names.len() > 0 {
        Some(names)
    } else {
        Some(words)
    }
}

proof fn lemma_empty_bytes(s: Seq<char>)
    ensures
        text::byte_len(s) == 0 <==> s.len() == 0,
{
    if s.len() > 0 {
        text::lemma_byte_len_one(s[0]);
        text::lemma_byte_len_concat(seq![s[0]], s.drop_first());
        assert(seq![s[0]] + s.drop_first() =~= s);
    }
}

/// The prompt of a chunk.
pub fn build_effective_prompt(
    prompt_context_chars: Option<u32>,
    vocabulary: &str,
    accumulated_text: &str,
) -> (r: Option<String>)
    ensures
        match effective_prompt(vocabulary@, accumulated_text@, budget(prompt_context_chars)) {
            Some(p) => r matches Some(t) && t@ == p,
            None => r is None,
        },
        r is None <==> vocabulary@.len() == 0 && accumulated_text@.len() == 0,
        vocabulary@.len() == 0 ==> (r matches Some(t) ==> {
            let left = match prompt_context_chars {
                Some(n) => n as nat,
                None => 350,
            };
            let n = accumulated_text@.len() - t@.len();
            &&& n >= 0 && t@ == accumulated_text@.skip(n)
            &&& text::byte_len(t@) <= left
            &&& forall|k: int|
                0 <= k < n ==> text::byte_len(#[trigger] accumulated_text@.skip(k)) > left
        }),
{
    proof {
        law_prompt_is_names_and_last_words(
            vocabulary@,
            accumulated_text@,
            budget(prompt_context_chars),
        );
    }
    let max: usize = prompt_budget(prompt_context_chars);
    let mut names: String = text::head_text(vocabulary, VOCABULARY_BYTES);
    let taken: usize = text::byte_length(names.as_str());
    proof {
        text::lemma_head_within(vocabulary@, VOCABULARY_BYTES as nat);
        lemma_empty_bytes(names@);
    }
    let spent: usize = if taken > 0 {
        taken + 2
    } else {
        0
    };
    let words: String = text::tail_text(accumulated_text, max.saturating_sub(spent));
    if accumulated_text.is_empty() && taken == 0 {
        return None;
    }
    if taken > 0 {
        if !words.as_str().is_empty() {
            names.append(". ");
            names.append(words.as_str());
        }
        Some(names)
    } else {
        Some(words)
    }
}

/// A prompt never takes more bytes than its budget, or than the names may take where
/// the budget is smaller than that.
pub proof fn law_prompt_within_budget(vocabulary: Seq<char>, context: Seq<char>, max: nat)
    ensures
        effective_prompt(vocabulary, context, max) matches Some(p) ==> text::byte_len(p) <= max
            || text::byte_len(p) <= VOCABULARY_BYTES,
{
    let names = vocabulary_part(vocabulary);
    let words = context_part(vocabulary, context, max);
    let taken = text::byte_len(names);
    let spent: nat = if taken > 0 {
        taken + 2
    } else {
        0
    };
    let left: nat = if max >= spent {
        (max - spent) as nat
    } else {
        0
    };
    text::lemma_head_within(vocabulary, VOCABULARY_BYTES as nat);
    text::lemma_tail_within(context, left);
    lemma_empty_bytes(names);
    lemma_empty_bytes(words);
    text::lemma_byte_len_concat(names + ". "@, words);
    text::lemma_byte_len_concat(names, ". "@);
    assert(text::byte_len(". "@) == 2) by {
        reveal_strlit(". ");
        assert(". "@ =~= seq!['.', ' ']);
        assert(seq!['.', ' '] =~= seq!['.'] + seq![' ']);
        text::lemma_byte_len_concat(seq!['.'], seq![' ']);
        text::lemma_byte_len_one('.');
        text::lemma_byte_len_one(' ');
    }
}

/// A prompt is made of a prefix of the names and a suffix of the text, with a full stop
/// and a space between them where there are both. The names are the longest prefix that
/// takes eighty bytes, the words the longest suffix that takes what names and stop leave
/// of the budget; and there is a prompt wherever there are names or text.
pub proof fn law_prompt_is_names_and_last_words(
    vocabulary: Seq<char>,
    context: Seq<char>,
    max: nat,
) -> (r: (nat, nat))
    ensures
        ({
            let (n, w) = r;
            let names = vocabulary.take(n as int);
            let words = context.skip(w as int);
            let spent: nat = if n > 0 {
                text::byte_len(names) + 2
            } else {
                0
            };
            let left: nat = if max >= spent {
                (max - spent) as nat
            } else {
                0
            };
            &&& n <= vocabulary.len() && w <= context.len()
            &&& text::byte_len(names) <= 80
            &&& forall|k: int|
                n < k <= vocabulary.len() ==> text::byte_len(#[trigger] vocabulary.take(k)) > 80
            &&& text::byte_len(words) <= left
            &&& forall|k: int|
                0 <= k < w ==> text::byte_len(#[trigger] context.skip(k)) > left
            &&& effective_prompt(vocabulary, context, max) is None <==> vocabulary.len() == 0
                && context.len() == 0
            &&& effective_prompt(vocabulary, context, max) matches Some(p) ==> p == (if n > 0 && w
                < context.len() {
                names + seq!['.', ' '] + words
            } else {
                names + words
            })
        }),
{
    let names = vocabulary_part(vocabulary);
    let words = context_part(vocabulary, context, max);
    let n = names.len();
    let w = (context.len() - words.len()) as nat;
    text::law_head_is_longest_prefix(vocabulary, VOCABULARY_BYTES as nat);
    lemma_empty_bytes(names);
    lemma_empty_bytes(words);
    let spent: nat = if n > 0 {
        text::byte_len(names) + 2
    } else {
        0
    };
    let left: nat = if max >= spent {
        (max - spent) as nat
    } else {
        0
    };
    text::law_tail_is_longest_suffix(context, left);
    if n == 0 && vocabulary.len() > 0 {
        let one = vocabulary.take(1);
        assert(one =~= seq![vocabulary[0]]);
        text::lemma_byte_len_one(vocabulary[0]);
        assert(false);
    }
    assert(". "@ =~= seq!['.', ' ']) by {
        reveal_strlit(". ");
    }
    assert(names + words =~= if n > 0 {
        names + words
    } else {
        words
    });
    if words.len() == 0 {
        assert(names + words =~= names);
    }
    (n, w)
}

// --- Gathering text ---

/// The texts of the segments that were not rejected, with a space between them.
pub open spec fn kept_text(segments: Seq<TranscriptSegmentDto>, rejected: Seq<bool>, n: nat) -> (
    Seq<char>,
    bool,
)
    decreases n,
{
    if n == 0 {
        (Seq::empty(), false)
    } else {
        let (before, any) = kept_text(segments, rejected, (n - 1) as nat);
        if rejected[n - 1] {
            (before, any)
        } else if any {
            (before.push(' ') + segments[n - 1].text@, true)
        } else {
            (segments[n - 1].text@, true)
        }
    }
}

/// Only what was rejected is left out: a segment that was not stands in the text as it is,
/// behind every earlier one, and what a rejected one says changes nothing.
pub proof fn law_kept_text_holds_segments(
    segments: Seq<TranscriptSegmentDto>,
    others: Seq<TranscriptSegmentDto>,
    rejected: Seq<bool>,
    n: nat,
    i: int,
) -> (at: int)
    requires
        n <= segments.len(),
        segments.len() == others.len() == rejected.len(),
        0 <= i < n,
        forall|k: int|
            0 <= k < segments.len() && !rejected[k] ==> (#[trigger] segments[k]).text@
                == others[k].text@,
    ensures
        kept_text(segments, rejected, n) == kept_text(others, rejected, n),
        !rejected[i] ==> {
            let text = kept_text(segments, rejected, n).0;
            let before = kept_text(segments, rejected, i as nat);
            &&& 0 <= at && at + segments[i].text@.len() <= text.len()
            &&& text.subrange(at, at + segments[i].text@.len()) == segments[i].text@
            &&& text.take(before.0.len() as int) == before.0
            &&& before.1 ==> at == before.0.len() + 1 && text[at - 1] == ' '
            &&& !before.1 ==> at == 0 && before.0.len() == 0
        },
        kept_text(segments, rejected, n).1 <==> exists|k: int| 0 <= k < n && !#[trigger] rejected[k],
    decreases n,
{
    let m = (n - 1) as nat;
    let (before, any) = kept_text(segments, rejected, m);
    let all = kept_text(segments, rejected, n).0;
    lemma_nothing_kept(segments, rejected, m);
    if m > 0 {
        let j = if i < m {
            i
        } else {
            0
        };
        let at = law_kept_text_holds_segments(segments, others, rejected, m, j);
        if !rejected[m as int] {
            assert(segments[m as int].text@ == others[m as int].text@);
        }
        assert((exists|k: int| 0 <= k < n && !#[trigger] rejected[k]) <==> (any
            || !rejected[m as int])) by {
            if any {
                let k = choose|k: int| 0 <= k < m && !#[trigger] rejected[k];
                assert(!rejected[k]);
            }
        }
        if i < m {
            if !rejected[i] {
                assert(any);
                let len = segments[i].text@.len();
                let first = kept_text(segments, rejected, i as nat).0;
                assert(all.subrange(at, at + len) =~= before.subrange(at, at + len));
                assert(all.take(first.len() as int) =~= before.take(first.len() as int));
            }
            at
        } else {
            let at: int = if any {
                before.len() as int + 1
            } else {
                0
            };
            if !rejected[i] {
                let len = segments[i].text@.len();
                assert(all.subrange(at, at + len) =~= segments[i].text@);
                assert(all.take(before.len() as int) =~= before);
            }
            at
        }
    } else {
        reveal_with_fuel(kept_text, 2);
        if !rejected[0] {
            assert(segments[0].text@ == others[0].text@);
            assert(all.subrange(0, all.len() as int) =~= all);
            assert(all.take(0) =~= Seq::<char>::empty());
        }
        0
    }
}

proof fn lemma_nothing_kept(segments: Seq<TranscriptSegmentDto>, rejected: Seq<bool>, n: nat)
    ensures
        !kept_text(segments, rejected, n).1 ==> kept_text(segments, rejected, n).0.len() == 0,
    decreases n,
{
    if n > 0 {
        lemma_nothing_kept(segments, rejected, (n - 1) as nat);
    }
}

/// The text of a chunk that may prime the next one: the segments that are not known
/// inventions of the engine, with a space between them.
pub fn prompt_text(segments: &Vec<TranscriptSegmentDto>, rejected: &Vec<bool>) -> (r: String)
    requires
        segments@.len() == rejected@.len(),
    ensures
        r@ == kept_text(segments@, rejected@, segments@.len()).0,
{
    let mut out: String = String::new();
    let mut any: bool = false;
    let mut i: usize = 0;
    while i < segments.len()
        invariant
            segments@.len() == rejected@.len(),
            i <= segments@.len(),
            (out@, any) == kept_text(segments@, rejected@, i as nat),
            !any ==> out@.len() == 0,
        decreases segments@.len() - i,
    {
        if !rejected[i] {
            if any {
                out.push(' ');
                out.append(segments[i].text.as_str());
            } else {
                out = segments[i].text.clone();
            }
            any = true;
        }
        i = i + 1;
    }
    out
}

/// `kept` followed by a space and `added`, cut to the last `max` bytes; `kept` itself
/// where nothing is added.
pub open spec fn gathered(kept: Seq<char>, added: Seq<char>, max: nat) -> Seq<char> {
    if added.len() == 0 {
        kept
    } else if kept.len() == 0 {
        text::tail_within(added, max)
    } else {
        text::tail_within(kept.push(' ') + added, max)
    }
}

/// Adds `added` to what is kept and cuts it to the last `max` bytes.
pub fn gather(kept: &mut String, added: &str, max: usize)
    ensures
        final(kept)@ == gathered(old(kept)@, added@, max as nat),
{
    if added.is_empty() {
        return;
    }
    let ghost before = kept@;
    if kept.as_str().is_empty() {
        assert(before + added@ =~= added@);
    } else {
        kept.push(' ');
    }
    kept.append(added);
    let cut: String = text::tail_text(kept.as_str(), max);
    *kept = cut;
}

/// What a stream keeps never outgrows its bound once something was added to it.
pub proof fn law_gathered_within(kept: Seq<char>, added: Seq<char>, max: nat)
    ensures
        added.len() > 0 || text::byte_len(kept) <= max ==> text::byte_len(
            gathered(kept, added, max),
        ) <= max,
{
    text::lemma_tail_within(added, max);
    text::lemma_tail_within(kept.push(' ') + added, max);
}

/// What is kept is the end of what was said: a suffix of the old text, a space and the new
/// text, the longest that fits, so that the newest words are the last to go.
pub proof fn law_gathered_is_the_latest(kept: Seq<char>, added: Seq<char>, max: nat)
    ensures
        ({
            let said = if kept.len() > 0 {
                kept + seq![' '] + added
            } else {
                added
            };
            let g = gathered(kept, added, max);
            &&& added.len() == 0 ==> g == kept
            &&& added.len() > 0 ==> {
                &&& g.len() <= said.len() && g == said.skip(said.len() - g.len())
                &&& text::byte_len(g) <= max
                &&& forall|k: int|
                    0 <= k < said.len() - g.len() ==> text::byte_len(#[trigger] said.skip(k)) > max
            }
        }),
{
    if kept.len() > 0 {
        assert(kept.push(' ') + added =~= kept + seq![' '] + added);
        text::law_tail_is_longest_suffix(kept.push(' ') + added, max);
    } else {
        text::law_tail_is_longest_suffix(added, max);
    }
}

/// Adds the text of a chunk to what its stream keeps and to the shared prompt.
pub fn extend_prompts(
    accumulated: &mut String,
    shared: &mut String,
    chunk_text: &str,
    prompt_context_chars: Option<u32>,
)
    ensures
        final(accumulated)@ == gathered(
            old(accumulated)@,
            chunk_text@,
            MAX_ACCUMULATED_TEXT_CHARS as nat,
        ),
        final(shared)@ == gathered(old(shared)@, chunk_text@, budget(prompt_context_chars)),
        chunk_text@.len() > 0 ==> text::byte_len(final(accumulated)@) <= 1000,
        chunk_text@.len() == 0 ==> final(accumulated)@ == old(accumulated)@ && final(shared)@
            == old(shared)@,
{
    proof {
        law_gathered_within(accumulated@, chunk_text@, MAX_ACCUMULATED_TEXT_CHARS as nat);
    }
    gather(accumulated, chunk_text, MAX_ACCUMULATED_TEXT_CHARS);
    gather(shared, chunk_text, prompt_budget(prompt_context_chars));
}

/// What the history hands to the live loop: the last bytes of its prompt.
pub fn bridge_prompt(shared: &str, prompt_context_chars: Option<u32>) -> (r: String)
    ensures
        r@ == text::tail_within(shared@, budget(prompt_context_chars)),
{
    text::tail_text(shared, prompt_budget(prompt_context_chars))
}

// --- Streams ---

/// Whether two streams differ at most in their text.
pub open spec fn same_but_text(a: SourceVadState, b: SourceVadState) -> bool {
    a == (SourceVadState { accumulated_text: a.accumulated_text, ..b })
}

/// Whether the streams of `after` are those of `before`, each with the text that
/// `text_of` gives it.
pub open spec fn retexted(
    before: Seq<SourceVadState>,
    after: Seq<SourceVadState>,
    text_of: spec_fn(Seq<char>) -> Seq<char>,
) -> bool {
    &&& after.len() == before.len()
    &&& forall|i: int|
        0 <= i < before.len() ==> same_but_text(#[trigger] after[i], before[i])
            && after[i].accumulated_text@ == text_of(before[i].accumulated_text@)
}

/// Hands the history's prompt to the live loop, once there is one: to the shared prompt
/// and to every stream that has no words of its own. Returns whether there was one.
pub fn seed_prompt_from_backfill(
    bridged: &str,
    prompt: &mut PromptState,
    sources: &mut Vec<SourceVadState>,
    now: u64,
) -> (r: bool)
    ensures
        r == (bridged@.len() > 0),
        !r ==> *final(prompt) == *old(prompt) && final(sources)@ == old(sources)@,
        r ==> {
            &&& final(prompt).shared_prompt@ == (if old(prompt).shared_prompt@.len() == 0 {
                bridged@
            } else {
                old(prompt).shared_prompt@
            })
            &&& final(prompt).last_transcription_at == Some(now)
            &&& retexted(
                old(sources)@,
                final(sources)@,
                |t: Seq<char>|
                    if t.len() == 0 {
                        bridged@
                    } else {
                        t
                    },
            )
        },
        final(sources)@.len() == old(sources)@.len(),
        forall|i: int|
            #![trigger final(sources)@[i]]
            0 <= i < old(sources)@.len() ==> final(sources)@[i] == (SourceVadState {
                accumulated_text: final(sources)@[i].accumulated_text,
                ..old(sources)@[i]
            }) && final(sources)@[i].accumulated_text@ == (if old(
                sources,
            )@[i].accumulated_text@.len() == 0 {
                bridged@
            } else {
                old(sources)@[i].accumulated_text@
            }),
{
    if bridged.is_empty() {
        return false;
    }
    if prompt.shared_prompt.as_str().is_empty() {
        prompt.shared_prompt = bridged.to_owned();
    }
    prompt.last_transcription_at = Some(now);
    let ghost before = sources@;
    let mut i: usize = 0;
    while i < sources.len()
        invariant
            i <= sources@.len() == before.len(),
            forall|k: int|
                0 <= k < i ==> same_but_text(#[trigger] sources@[k], before[k])
                    && sources@[k].accumulated_text@ == (if before[k].accumulated_text@.len() == 0 {
                    bridged@
                } else {
                    before[k].accumulated_text@
                }),
            forall|k: int| i <= k < before.len() ==> sources@[k] == before[k],
        decreases sources@.len() - i,
    {
        if sources[i].accumulated_text.as_str().is_empty() {
            sources[i].accumulated_text = bridged.to_owned();
        }
        i = i + 1;
    }
    true
}

/// Whether a prompt has gone stale: forgetting is asked for, a chunk was transcribed
/// once, long enough ago, and there is something to forget.
pub open spec fn stale(
    sources: Seq<SourceVadState>,
    shared: Seq<char>,
    decay_seconds: Single,
    last_transcription_at: Option<u64>,
    now: u64,
) -> bool {
    &&& decay_seconds.gt(Single { bits: 0 })
    &&& last_transcription_at matches Some(then) && vad::since(now, then) >= single::seconds_span(
        (decay_seconds.mant(), decay_seconds.exp()),
    )
    &&& (shared.len() > 0 || exists|i: int|
        0 <= i < sources.len() && (#[trigger] sources[i]).accumulated_text@.len() > 0)
}

/// Forgets a stale prompt and the words of every stream. Returns whether it did.
pub fn check_prompt_decay(
    sources: &mut Vec<SourceVadState>,
    shared_prompt: &mut String,
    decay_seconds: Single,
    last_transcription_at: Option<u64>,
    now: u64,
) -> (r: bool)
    requires
        decay_seconds.is_span() || (Single { bits: 0 }).ge(decay_seconds),
    ensures
        r == stale(old(sources)@, old(shared_prompt)@, decay_seconds, last_transcription_at, now),
        !r ==> final(sources)@ == old(sources)@ && *final(shared_prompt) == *old(shared_prompt),
        r ==> final(shared_prompt)@.len() == 0 && retexted(
            old(sources)@,
            final(sources)@,
            |t: Seq<char>| Seq::empty(),
        ),
        final(sources)@.len() == old(sources)@.len(),
        r ==> forall|i: int|
            #![trigger final(sources)@[i]]
            0 <= i < old(sources)@.len() ==> final(sources)@[i] == (SourceVadState {
                accumulated_text: final(sources)@[i].accumulated_text,
                ..old(sources)@[i]
            }) && final(sources)@[i].accumulated_text@.len() == 0,
{
    if !decay_seconds.above(Single { bits: 0 }) {
        return false;
    }
    let then: u64 = match last_transcription_at {
        Some(t) => t,
        None => {
            return false;
        },
    };
    if (vad::elapsed(now, then) as u128) < decay_seconds.span() {
        return false;
    }
    let mut any: bool = !shared_prompt.as_str().is_empty();
    let mut i: usize = 0;
    while i < sources.len()
        invariant
            i <= sources@.len(),
            any == (shared_prompt@.len() > 0 || exists|k: int|
                0 <= k < i && (#[trigger] sources@[k]).accumulated_text@.len() > 0),
        decreases sources@.len() - i,
    {
        if !sources[i].accumulated_text.as_str().is_empty() {
            any = true;
        }
        i = i + 1;
    }
    if !any {
        return false;
    }
    *shared_prompt = String::new();
    let ghost before = sources@;
    let mut j: usize = 0;
    while j < sources.len()
        invariant
            j <= sources@.len() == before.len(),
            forall|k: int|
                0 <= k < j ==> same_but_text(#[trigger] sources@[k], before[k])
                    && sources@[k].accumulated_text@ == Seq::<char>::empty(),
            forall|k: int| j <= k < before.len() ==> sources@[k] == before[k],
        decreases sources@.len() - j,
    {
        sources[j].accumulated_text = String::new();
        j = j + 1;
    }
    true
}

/// After how many seconds of silence a prompt is forgotten.
pub open spec fn decay_of(requested: Option<Single>) -> Single {
    match requested {
        Some(s) => s,
        None => Single { bits: DEFAULT_DECAY_BITS },
    }
}

/// Forgets the loop's prompt where it has gone stale, and that anything was transcribed.
pub fn run_prompt_decay(
    prompt: &mut PromptState,
    sources: &mut Vec<SourceVadState>,
    decay_seconds: Option<Single>,
    now: u64,
) -> (r: bool)
    requires
        decay_seconds matches Some(s) ==> s.is_span() || (Single { bits: 0 }).ge(s),
    ensures
        r == stale(
            old(sources)@,
            old(prompt).shared_prompt@,
            decay_of(decay_seconds),
            old(prompt).last_transcription_at,
            now,
        ),
        !r ==> final(sources)@ == old(sources)@ && *final(prompt) == *old(prompt),
        r ==> final(prompt).shared_prompt@.len() == 0 && final(prompt).last_transcription_at is None
            && retexted(old(sources)@, final(sources)@, |t: Seq<char>| Seq::empty()),
        r ==> final(sources)@.len() == old(sources)@.len() && forall|i: int|
            #![trigger final(sources)@[i]]
            0 <= i < old(sources)@.len() ==> final(sources)@[i].accumulated_text@.len() == 0,
        r == stale(
            old(sources)@,
            old(prompt).shared_prompt@,
            match decay_seconds {
                Some(s) => s,
                None => Single { bits: 0x40a0_0000 },
            },
            old(prompt).last_transcription_at,
            now,
        ),
{
    let secs: Single = match decay_seconds {
        Some(s) => s,
        None => Single { bits: DEFAULT_DECAY_BITS },
    };
    let last: Option<u64> = prompt.last_transcription_at;
    let decayed: bool = check_prompt_decay(sources, &mut prompt.shared_prompt, secs, last, now);
    if decayed {
        prompt.last_transcription_at = None;
    }
    decayed
}

/// Once forgotten, a prompt is not stale again until a chunk was transcribed.
pub proof fn law_decay_settles(
    sources: Seq<SourceVadState>,
    shared: Seq<char>,
    decay_seconds: Single,
    now: u64,
)
    ensures
        !stale(sources, shared, decay_seconds, None, now),
{
}

/// A prompt is forgotten once as much time has passed since the last transcribed chunk as
/// was asked for, and from then on at every later moment, but never at no length of time
/// at all, nor where there is nothing to forget.
pub proof fn law_prompt_goes_stale(
    sources: Seq<SourceVadState>,
    shared: Seq<char>,
    decay_seconds: Single,
    then: u64,
    now: u64,
    later: u64,
)
    requires
        decay_seconds.is_span(),
        then <= now <= later,
    ensures
        stale(sources, shared, decay_seconds, Some(then), now) ==> stale(
            sources,
            shared,
            decay_seconds,
            Some(then),
            later,
        ),
        decay_seconds.bits == 0 ==> !stale(sources, shared, decay_seconds, Some(then), now),
        decay_seconds.bits > 0 && shared.len() > 0 ==> ({
            let unit = vstd::arithmetic::power2::pow2(149);
            let secs = decay_seconds.mant() * vstd::arithmetic::power2::pow2(
                (decay_seconds.exp() + 149) as nat,
            );
            let fresh = !stale(sources, shared, decay_seconds, Some(then), now);
            &&& 2 * (now - then) * unit >= 2 * secs * 1_000_000_000 + unit ==> !fresh
            &&& 2 * (now - then) * unit < 2 * secs * 1_000_000_000 - unit ==> fresh
        }),
        shared.len() == 0 && (forall|i: int|
            0 <= i < sources.len() ==> (#[trigger] sources[i]).accumulated_text@.len() == 0)
            ==> !stale(sources, shared, decay_seconds, Some(then), now),
{
    let secs = (decay_seconds.mant(), decay_seconds.exp());
    single::law_span_of_seconds(secs, 149);
    single::law_order_of_values(decay_seconds, Single { bits: 0 });
    let unit = vstd::arithmetic::power2::pow2(149);
    let n = single::seconds_span(secs);
    let passed = now - then;
    vstd::arithmetic::power2::lemma_pow2_pos(149);
    let x = secs.0 * vstd::arithmetic::power2::pow2((secs.1 + 149) as nat);
    if passed >= n {
        assert(2 * passed * unit >= 2 * (n * unit)) by (nonlinear_arith)
            requires
                passed >= n,
                unit > 0,
        ;
    } else {
        assert(2 * passed * unit <= 2 * (n * unit) - 2 * unit) by (nonlinear_arith)
            requires
                passed <= n - 1,
                unit > 0,
        ;
    }
}

} // verus!
