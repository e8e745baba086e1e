//! Phrase tokenization and instruction resolution.
//!
//! The program text is split on single spaces into words; consecutive word
//! pairs form phrases (an odd trailing word is dropped). Each phrase is
//! tested against the eight instruction phrases of a [`TokenSet`]:
//! recognized phrases become the program, unrecognized ones are comments.
//! While the program is built, loop-open indices are kept on a stack and
//! every loop-close records the pairing in both directions in a dense jump
//! map; a loop-close with no open on the stack is paired with index 0, and
//! a loop-open that is never closed keeps an empty jump-map slot.

use vstd::prelude::*;
use vstd::string::*;

verus! {

/// One of the eight operations of the machine.
#[derive(Clone, Copy, Debug, PartialEq, Eq, Structural)]
pub enum Instr {
    /// Move the tape cursor one cell to the right.
    Advance,
    /// Move the tape cursor one cell to the left.
    Devance,
    /// Add one to the current cell.
    Increment,
    /// Subtract one from the current cell.
    Decrement,
    /// Read the whole remaining input, parse it, store it in the current cell.
    SetFromInput,
    /// Emit the low byte of the current cell.
    Print,
    /// Jump past the matching loop-close when the current cell is zero.
    JumpForward,
    /// Jump back past the matching loop-open when the current cell is nonzero.
    JumpBack,
}

/// The eight phrase texts, one per operation.
pub struct TokenSet<'a> {
    pub advance: &'a String,
    pub devance: &'a String,
    pub increment: &'a String,
    pub decrement: &'a String,
    pub set: &'a String,
    pub print: &'a String,
    pub jump_forward: &'a String,
    pub jump_back: &'a String,
}

/// The phrase texts of a [`TokenSet`] as character sequences.
pub struct TokenSetModel {
    pub advance: Seq<char>,
    pub devance: Seq<char>,
    pub increment: Seq<char>,
    pub decrement: Seq<char>,
    pub set: Seq<char>,
    pub print: Seq<char>,
    pub jump_forward: Seq<char>,
    pub jump_back: Seq<char>,
}

impl<'a> View for TokenSet<'a> {
    type V = TokenSetModel;

    open spec fn view(&self) -> TokenSetModel {
        TokenSetModel {
            advance: self.advance@,
            devance: self.devance@,
            increment: self.increment@,
            decrement: self.decrement@,
            set: self.set@,
            print: self.print@,
            jump_forward: self.jump_forward@,
            jump_back: self.jump_back@,
        }
    }
}

/// The result of resolution: the instruction sequence, and for each index
/// the index of its loop partner, where one was recorded.
pub struct Parsed {
    pub tokens: Vec<Instr>,
    pub bracket_map: Vec<Option<usize>>,
}

impl Parsed {
    /// The jump map has one slot per instruction and every recorded partner
    /// index points into the program.
    pub open spec fn wf(self) -> bool {
        &&& self.bracket_map@.len() == self.tokens@.len()
        &&& forall|i: int|
            0 <= i < self.bracket_map@.len() ==> (#[trigger] self.bracket_map@[i] matches Some(t)
                ==> t < self.tokens@.len())
    }
}

/// The words of `s`, split on every single space. Splitting keeps empty
/// words: two adjacent spaces enclose an empty word, and the result always
/// has one more word than `s` has spaces.
pub open spec fn split_on_space(s: Seq<char>) -> Seq<Seq<char>>
    decreases s.len(),
{
    if s.len() == 0 {
        seq![Seq::<char>::empty()]
    } else if s.last() == ' ' {
        split_on_space(s.drop_last()).push(Seq::<char>::empty())
    } else {
        let r = split_on_space(s.drop_last());
        r.update(r.len() - 1, r.last().push(s.last()))
    }
}

/// The phrase at pair index `i`: words `2i` and `2i + 1` joined by a space.
pub open spec fn phrase_at(ws: Seq<Seq<char>>, i: int) -> Seq<char> {
    ws[2 * i] + seq![' '] + ws[2 * i + 1]
}

/// Consecutive word pairs joined by a space; an odd trailing word is dropped.
pub open spec fn pair_words(ws: Seq<Seq<char>>) -> Seq<Seq<char>> {
    Seq::new((ws.len() / 2) as nat, |i: int| phrase_at(ws, i))
}

/// The operation a phrase stands for, if it is one of the eight instruction
/// phrases; tested in the dispatch order of the execution engine.
pub open spec fn instr_of(ts: TokenSetModel, p: Seq<char>) -> Option<Instr> {
    if p == ts.advance {
        Some(Instr::Advance)
    } else if p == ts.devance {
        Some(Instr::Devance)
    } else if p == ts.increment {
        Some(Instr::Increment)
    } else if p == ts.decrement {
        Some(Instr::Decrement)
    } else if p == ts.print {
        Some(Instr::Print)
    } else if p == ts.set {
        Some(Instr::SetFromInput)
    } else if p == ts.jump_forward {
        Some(Instr::JumpForward)
    } else if p == ts.jump_back {
        Some(Instr::JumpBack)
    } else {
        None
    }
}

/// The program a phrase sequence resolves to: the recognized phrases'
/// operations, in order; unrecognized phrases leave no trace.
pub open spec fn program_of(ts: TokenSetModel, phrases: Seq<Seq<char>>) -> Seq<Instr>
    decreases phrases.len(),
{
    if phrases.len() == 0 {
        Seq::<Instr>::empty()
    } else {
        let rest = program_of(ts, phrases.drop_last());
        match instr_of(ts, phrases.last()) {
            Some(i) => rest.push(i),
            None => rest,
        }
    }
}

/// Intermediate state of jump-map resolution: the map built so far and the
/// stack of loop-open indices still waiting for their loop-close.
pub struct ResolveState {
    pub jumps: Seq<Option<usize>>,
    pub opens: Seq<usize>,
}

/// How one instruction at index `idx` extends the resolution state. A
/// loop-close pairs with the most recent open loop, or with index 0 when no
/// loop is open; the pairing is recorded in both directions.
pub open spec fn resolve_step(st: ResolveState, instr: Instr, idx: usize) -> ResolveState {
    match instr {
        Instr::JumpForward => ResolveState {
            jumps: st.jumps.push(None),
            opens: st.opens.push(idx),
        },
        Instr::JumpBack => {
            let left = if st.opens.len() == 0 {
                0usize
            } else {
                st.opens.last()
            };
            ResolveState {
                jumps: st.jumps.push(Some(left)).update(left as int, Some(idx)),
                opens: if st.opens.len() == 0 {
                    st.opens
                } else {
                    st.opens.drop_last()
                },
            }
        },
        _ => ResolveState { jumps: st.jumps.push(None), opens: st.opens },
    }
}

/// The resolution state after the first `n` instructions of `prog`.
pub open spec fn resolve_prefix(prog: Seq<Instr>, n: int) -> ResolveState
    decreases n,
{
    if n <= 0 {
        ResolveState { jumps: Seq::empty(), opens: Seq::empty() }
    } else {
        resolve_step(resolve_prefix(prog, n - 1), prog[n - 1], (n - 1) as usize)
    }
}

/// The jump map of a whole program.
pub open spec fn jump_map_of(prog: Seq<Instr>) -> Seq<Option<usize>> {
    resolve_prefix(prog, prog.len() as int).jumps
}

/// Resolution only looks at the instructions before `n`.
proof fn lemma_resolve_prefix_stable(prog1: Seq<Instr>, prog2: Seq<Instr>, n: int)
    requires
        n <= prog1.len(),
        n <= prog2.len(),
        forall|i: int| 0 <= i < n ==> prog1[i] == prog2[i],
    ensures
        resolve_prefix(prog1, n) == resolve_prefix(prog2, n),
    decreases n,
{
    if n > 0 {
        lemma_resolve_prefix_stable(prog1, prog2, n - 1);
    }
}

/// A phrase sequence with no recognized phrase resolves to the empty
/// program.
pub proof fn lemma_unrecognized_phrases_drop(ts: TokenSetModel, phrases: Seq<Seq<char>>)
    requires
        forall|i: int| 0 <= i < phrases.len() ==> instr_of(ts, #[trigger] phrases[i]) is None,
    ensures
        program_of(ts, phrases) == Seq::<Instr>::empty(),
    decreases phrases.len(),
{
    if phrases.len() > 0 {
        lemma_unrecognized_phrases_drop(ts, phrases.drop_last());
    }
}

/// How often `instr` occurs among the first `n` instructions of `prog`.
pub open spec fn count_up_to(prog: Seq<Instr>, instr: Instr, n: int) -> int
    decreases n,
{
    if n <= 0 {
        0
    } else {
        count_up_to(prog, instr, n - 1) + if prog[n - 1] == instr {
            1int
        } else {
            0int
        }
    }
}

/// Well-formed loop pairs: no prefix closes more loops than it has opened,
/// and over the whole program the two counts agree. With a single bracket
/// kind this is exactly proper nesting.
pub open spec fn well_formed_loops(prog: Seq<Instr>) -> bool {
    &&& forall|n: int|
        0 <= n <= prog.len() ==> count_up_to(prog, Instr::JumpBack, n) <= count_up_to(
            prog,
            Instr::JumpForward,
            n,
        )
    &&& count_up_to(prog, Instr::JumpBack, prog.len() as int) == count_up_to(
        prog,
        Instr::JumpForward,
        prog.len() as int,
    )
}

/// The resolution invariant, under the prefix-balance half of
/// [`well_formed_loops`]: the stack holds the still-open loop indices in
/// increasing order, open slots of the map are empty, and every recorded
/// pairing is mutual.
proof fn lemma_resolve_invariant(prog: Seq<Instr>, n: int)
    requires
        0 <= n <= prog.len(),
        prog.len() <= usize::MAX,
        forall|k: int|
            0 <= k <= n ==> count_up_to(prog, Instr::JumpBack, k) <= count_up_to(
                prog,
                Instr::JumpForward,
                k,
            ),
    ensures
        ({
            let st = resolve_prefix(prog, n);
            &&& st.jumps.len() == n
            &&& st.opens.len() == count_up_to(prog, Instr::JumpForward, n) - count_up_to(
                prog,
                Instr::JumpBack,
                n,
            )
            &&& forall|k: int| 0 <= k < st.opens.len() ==> #[trigger] st.opens[k] < n
            &&& forall|k: int|
                0 <= k < st.opens.len() ==> st.jumps[#[trigger] st.opens[k] as int] is None
            &&& forall|k1: int, k2: int|
                0 <= k1 < k2 < st.opens.len() ==> st.opens[k1] < st.opens[k2]
            &&& forall|i: int|
                0 <= i < n ==> (#[trigger] st.jumps[i] matches Some(j) ==> 0 <= j < n
                    && st.jumps[j as int] == Some(i as usize))
        }),
    decreases n,
{
    if n > 0 {
        assert(count_up_to(prog, Instr::JumpBack, n - 1) <= count_up_to(
            prog,
            Instr::JumpForward,
            n - 1,
        ));
        lemma_resolve_invariant(prog, n - 1);
        let st0 = resolve_prefix(prog, n - 1);
        let st = resolve_prefix(prog, n);
        let instr = prog[n - 1];
        if instr == Instr::JumpBack {
            // The prefix balance keeps the stack from running empty here.
            assert(st0.opens.len() >= 1);
            let left = st0.opens.last();
            let li = left as int;
            assert(st.jumps == st0.jumps.push(Some(left)).update(li, Some((n - 1) as usize)));
            assert(st.opens == st0.opens.drop_last());
            assert forall|k: int| 0 <= k < st.opens.len() implies st.jumps[
                (#[trigger] st.opens[k]) as int
            ] is None by {
                assert(st.opens[k] == st0.opens[k]);
                assert(st0.opens[k] < left);
            }
            assert forall|i: int|
                0 <= i < n implies (#[trigger] st.jumps[i] matches Some(j) ==> 0 <= j < n
                && st.jumps[j as int] == Some(i as usize)) by {
                if st.jumps[i] is Some {
                    if i == n - 1 {
                        assert(st.jumps[i] == Some(left));
                        assert(st.jumps[li] == Some((n - 1) as usize));
                    } else if i == li {
                        assert(st.jumps[i] == Some((n - 1) as usize));
                        assert(st.jumps[n - 1] == Some(left));
                    } else {
                        assert(st.jumps[i] == st0.jumps[i]);
                        let j0 = st0.jumps[i]->Some_0;
                        assert(st0.jumps[j0 as int] == Some(i as usize));
                        assert(j0 as int != li);
                        assert(st.jumps[j0 as int] == st0.jumps[j0 as int]);
                    }
                }
            }
        } else if instr == Instr::JumpForward {
            assert(st.jumps == st0.jumps.push(None));
            assert(st.opens == st0.opens.push((n - 1) as usize));
            assert forall|i: int|
                0 <= i < n implies (#[trigger] st.jumps[i] matches Some(j) ==> 0 <= j < n
                && st.jumps[j as int] == Some(i as usize)) by {
                if st.jumps[i] is Some {
                    let j = st.jumps[i]->Some_0;
                    assert(i < n - 1);
                    assert(st0.jumps[j as int] == Some(i as usize));
                }
            }
        } else {
            assert(st.jumps == st0.jumps.push(None));
            assert(st.opens == st0.opens);
            assert forall|i: int|
                0 <= i < n implies (#[trigger] st.jumps[i] matches Some(j) ==> 0 <= j < n
                && st.jumps[j as int] == Some(i as usize)) by {
                if st.jumps[i] is Some {
                    let j = st.jumps[i]->Some_0;
                    assert(i < n - 1);
                    assert(st0.jumps[j as int] == Some(i as usize));
                }
            }
        }
    }
}

/// For well-formed loop pairs the jump map is symmetric: it records `close`
/// as the partner of `open` exactly where it records `open` as the partner
/// of `close`.
pub proof fn lemma_jump_map_symmetric(prog: Seq<Instr>)
    requires
        well_formed_loops(prog),
        prog.len() <= usize::MAX,
    ensures
        forall|i: int, j: int|
            0 <= i < prog.len() && 0 <= j < prog.len() ==> (jump_map_of(prog)[i] == Some(
                j as usize,
            ) <==> jump_map_of(prog)[j] == Some(i as usize)),
{
    lemma_resolve_invariant(prog, prog.len() as int);
    let jm = jump_map_of(prog);
    assert forall|i: int, j: int|
        0 <= i < prog.len() && 0 <= j < prog.len() implies (jm[i] == Some(j as usize) <==> jm[j]
        == Some(i as usize)) by {
        if jm[i] == Some(j as usize) {
            assert(jm[i] matches Some(t) && t == j as usize);
        }
        if jm[j] == Some(i as usize) {
            assert(jm[j] matches Some(t) && t == i as usize);
        }
    }
}

/// Split the program text into two-word phrases: the text is cut into words
/// at every single space, and consecutive word pairs are joined back with one
/// space between them. An odd trailing word is dropped.
pub fn split(program: String) -> (r: Vec<String>)
    ensures
        r@.len() == pair_words(split_on_space(program@)).len(),
        forall|i: int|
            0 <= i < r@.len() ==> r@[i]@ == pair_words(split_on_space(program@))[i],
{
    let prog: &str = program.as_str();
    let n: usize = prog.unicode_len();
    let mut words: Vec<String> = Vec::new();
    let mut start: usize = 0;
    let mut i: usize = 0;
    while i < n
        invariant
            start <= i <= n,
            n == prog@.len(),
            prog@ == program@,
            words@.len() + 1 == split_on_space(prog@.subrange(0, i as int)).len(),
            forall|j: int|
                0 <= j < words@.len() ==> words@[j]@ == split_on_space(
                    prog@.subrange(0, i as int),
                )[j],
            split_on_space(prog@.subrange(0, i as int)).last() == prog@.subrange(
                start as int,
                i as int,
            ),
        decreases n - i,
    {
        let ghost prefix = prog@.subrange(0, i as int);
        let c: char = prog.get_char(i);
        proof {
            assert(prog@.subrange(0, i + 1).drop_last() =~= prefix);
            assert(prog@.subrange(0, i + 1).last() == c);
        }
        if c == ' ' {
            let w: &str = prog.substring_char(start, i);
            words.push(w.to_owned());
            start = i + 1;
            proof {
                assert(prog@.subrange(start as int, i + 1) =~= Seq::<char>::empty());
            }
        } else {
            proof {
                let r = split_on_space(prefix);
                assert(split_on_space(prog@.subrange(0, i + 1)) == r.update(
                    r.len() - 1,
                    r.last().push(c),
                ));
                assert(prog@.subrange(start as int, i + 1) =~= prog@.subrange(
                    start as int,
                    i as int,
                ).push(c));
            }
        }
        i = i + 1;
    }
    proof {
        assert(prog@.subrange(0, n as int) =~= prog@);
    }
    let w: &str = prog.substring_char(start, n);
    words.push(w.to_owned());
    // `words` now holds exactly the words of the text; join consecutive pairs.
    let ghost ws = split_on_space(prog@);
    proof {
        assert(words@.len() == ws.len());
        assert(forall|j: int| 0 <= j < words@.len() ==> words@[j]@ == ws[j]);
    }
    let mut tokens: Vec<String> = Vec::new();
    let length: usize = words.len() / 2;
    let mut k: usize = 0;
    while k < length
        invariant
            k <= length,
            length == words@.len() / 2,
            words@.len() == ws.len(),
            forall|j: int| 0 <= j < words@.len() ==> words@[j]@ == ws[j],
            tokens@.len() == k,
            forall|j: int| 0 <= j < k ==> tokens@[j]@ == phrase_at(ws, j),
        decreases length - k,
    {
        proof {
            assert(words.len() <= usize::MAX);
            assert(2 * (words@.len() / 2) <= words@.len());
        }
        let base: usize = k * 2;
        let mut s = String::new();
        s.append(words[base].as_str());
        s.append(" ");
        s.append(words[base + 1].as_str());
        proof {
            reveal_strlit(" ");
            assert(s@ =~= phrase_at(ws, k as int));
        }
        tokens.push(s);
        k = k + 1;
    }
    tokens
}

/// The operation a phrase stands for, or nothing for an unrecognized phrase.
pub fn recognize(token_set: &TokenSet, token: &String) -> (r: Option<Instr>)
    ensures
        r == instr_of(token_set@, token@),
{
    if token.eq(token_set.advance) {
        Some(Instr::Advance)
    } else if token.eq(token_set.devance) {
        Some(Instr::Devance)
    } else if token.eq(token_set.increment) {
        Some(Instr::Increment)
    } else if token.eq(token_set.decrement) {
        Some(Instr::Decrement)
    } else if token.eq(token_set.print) {
        Some(Instr::Print)
    } else if token.eq(token_set.set) {
        Some(Instr::SetFromInput)
    } else if token.eq(token_set.jump_forward) {
        Some(Instr::JumpForward)
    } else if token.eq(token_set.jump_back) {
        Some(Instr::JumpBack)
    } else {
        None
    }
}

/// Resolve the program text: tokenize it, keep the recognized phrases as the
/// program, and record the loop pairings in the jump map.
pub fn parse(token_set: &TokenSet, program: String) -> (r: Parsed)
    ensures
        r.tokens@ == program_of(token_set@, pair_words(split_on_space(program@))),
        r.bracket_map@ == jump_map_of(r.tokens@),
        r.wf(),
{
    let tokens = split(program);
    let ghost phrases = pair_words(split_on_space(program@));

    let mut parsed: Vec<Instr> = Vec::new();
    let mut bracket_map: Vec<Option<usize>> = Vec::new();
    let mut leftstack: Vec<usize> = Vec::new();

    let mut t: usize = 0;
    while t < tokens.len()
        invariant
            t <= tokens@.len(),
            tokens@.len() == phrases.len(),
            forall|j: int| 0 <= j < tokens@.len() ==> tokens@[j]@ == phrases[j],
            parsed@ == program_of(token_set@, phrases.take(t as int)),
            bracket_map@ == resolve_prefix(parsed@, parsed@.len() as int).jumps,
            leftstack@ == resolve_prefix(parsed@, parsed@.len() as int).opens,
            bracket_map@.len() == parsed@.len(),
            forall|j: int| 0 <= j < leftstack@.len() ==> leftstack@[j] < parsed@.len(),
            forall|j: int|
                0 <= j < bracket_map@.len() ==> (#[trigger] bracket_map@[j] matches Some(x)
                    ==> x < parsed@.len()),
        decreases tokens@.len() - t,
    {
        proof {
            assert(phrases.take(t + 1).drop_last() =~= phrases.take(t as int));
            assert(phrases.take(t + 1).last() == phrases[t as int]);
        }
        let token = &tokens[t];
        match recognize(token_set, token) {
            Some(instr) => {
                let pc: usize = parsed.len();
                let ghost old_parsed = parsed@;
                parsed.push(instr);
                proof {
                    lemma_resolve_prefix_stable(old_parsed, parsed@, pc as int);
                }
                match instr {
                    Instr::JumpForward => {
                        bracket_map.push(None);
                        leftstack.push(pc);
                    },
                    Instr::JumpBack => {
                        let left: usize = match leftstack.pop() {
                            Some(number) => number,
                            None => 0,
                        };
                        bracket_map.push(Some(left));
                        bracket_map.set(left, Some(pc));
                    },
                    _ => {
                        bracket_map.push(None);
                    },
                }
            },
            None => {},
        }
        t = t + 1;
    }
    proof {
        assert(phrases.take(phrases.len() as int) =~= phrases);
    }
    Parsed { tokens: parsed, bracket_map }
}

} // verus!
