use vstd::prelude::*;

use crate::instr::{Instr, SyntaxError};
use itertools::Itertools;

verus! {

/// The primitive instruction for one source character: each of the eight
/// command characters maps to one instruction, every other character is
/// dropped. Brackets start out with a placeholder target of zero.
pub open spec fn instr_of_char(c: char) -> Option<Instr> {
    if c == '+' {
        Some(Instr::Add(1))
    } else if c == '-' {
        Some(Instr::Add(255))
    } else if c == '>' {
        Some(Instr::Ptr(1))
    } else if c == '<' {
        Some(Instr::Ptr(-1isize))
    } else if c == '[' {
        Some(Instr::LoopBegin(0))
    } else if c == ']' {
        Some(Instr::LoopEnd(0))
    } else if c == '.' {
        Some(Instr::Out)
    } else if c == ',' {
        Some(Instr::In)
    } else {
        None
    }
}

/// The instruction stream before coalescing: the command characters of the
/// source in order, each as its primitive instruction.
pub open spec fn filter_chars(s: Seq<char>) -> Seq<Instr>
    decreases s.len(),
{
    if s.len() == 0 {
        Seq::empty()
    } else {
        match instr_of_char(s.last()) {
            Some(ins) => filter_chars(s.drop_last()).push(ins),
            None => filter_chars(s.drop_last()),
        }
    }
}

/// Whether two adjacent instructions coalesce into one: two `Add`s always
/// do, two `Ptr`s do when the summed delta is representable.
pub open spec fn mergeable(a: Instr, b: Instr) -> bool {
    match (a, b) {
        (Instr::Add(_), Instr::Add(_)) => true,
        (Instr::Ptr(x), Instr::Ptr(y)) => isize::MIN <= x + y <= isize::MAX,
        _ => false,
    }
}

/// The one instruction a mergeable pair becomes: deltas summed, modulo 256
/// for `Add`.
pub open spec fn merged(a: Instr, b: Instr) -> Instr {
    match (a, b) {
        (Instr::Add(x), Instr::Add(y)) => Instr::Add((((x + y) % 256) as u8)),
        (Instr::Ptr(x), Instr::Ptr(y)) => Instr::Ptr(((x + y) as isize)),
        _ => a,
    }
}

/// The coalesced form of an instruction stream: scanning left to right,
/// each instruction merges into the previously kept one whenever the pair
/// is mergeable.
pub open spec fn coalesce_seq(s: Seq<Instr>) -> Seq<Instr>
    decreases s.len(),
{
    if s.len() <= 1 {
        s
    } else {
        let pre = coalesce_seq(s.drop_last());
        if pre.len() > 0 && mergeable(pre.last(), s.last()) {
            pre.update(pre.len() - 1, merged(pre.last(), s.last()))
        } else {
            pre.push(s.last())
        }
    }
}

/// Bracket resolution from position `i` on, with the indices of the still
/// open `LoopBegin`s on `stack`: on a `LoopBegin` its index is pushed; on a
/// `LoopEnd` the most recent one is popped and the two are linked, each
/// target set to the other's index; a `LoopEnd` with nothing to pop, or
/// anything left on the stack at the end, is a syntax error.
pub open spec fn resolve_from(prog: Seq<Instr>, i: int, stack: Seq<usize>) -> Result<
    Seq<Instr>,
    SyntaxError,
>
    decreases prog.len() - i,
{
    if i >= prog.len() {
        if stack.len() == 0 {
            Ok(prog)
        } else {
            Err(SyntaxError::UnmatchedOpeningBrackets(stack.len() as usize))
        }
    } else {
        match prog[i] {
            Instr::LoopBegin(_) => resolve_from(prog, i + 1, stack.push(i as usize)),
            Instr::LoopEnd(_) => {
                if stack.len() == 0 {
                    Err(SyntaxError::UnmatchedClosingBracket(i as usize))
                } else if stack.last() < i {
                    resolve_from(
                        prog.update(stack.last() as int, Instr::LoopBegin(i as usize)).update(
                            i,
                            Instr::LoopEnd(stack.last()),
                        ),
                        i + 1,
                        stack.drop_last(),
                    )
                } else {
                    // the scan only pushes indices it has passed, so a pending
                    // index at or beyond `i` never arises; this keeps the
                    // definition total
                    resolve_from(prog, i + 1, stack.drop_last())
                }
            },
            _ => resolve_from(prog, i + 1, stack),
        }
    }
}

/// The whole translation of a source text, as a value: filter the command
/// characters, coalesce adjacent arithmetic, resolve the brackets.
pub open spec fn translate(s: Seq<char>) -> Result<Seq<Instr>, SyntaxError> {
    resolve_from(coalesce_seq(filter_chars(s)), 0, Seq::empty())
}

/// How many times character `c` occurs in `s`.
pub open spec fn count_char(s: Seq<char>, c: char) -> int
    decreases s.len(),
{
    if s.len() == 0 {
        0
    } else {
        count_char(s.drop_last(), c) + if s.last() == c {
            1int
        } else {
            0int
        }
    }
}

/// The delta a source of only `+` and `-` coalesces to: the net count of
/// the two characters, modulo 256, a `-` counting as 255.
pub open spec fn net_add(s: Seq<char>) -> u8 {
    ((count_char(s, '+') + 255 * count_char(s, '-')) % 256) as u8
}

/// The signed pointer delta a source of only `>` and `<` coalesces to.
pub open spec fn net_move(s: Seq<char>) -> int {
    count_char(s, '>') - count_char(s, '<')
}

proof fn lemma_count_char_bounds(s: Seq<char>, c: char)
    ensures
        0 <= count_char(s, c) <= s.len(),
    decreases s.len(),
{
    if s.len() > 0 {
        lemma_count_char_bounds(s.drop_last(), c);
    }
}

proof fn lemma_only_add_coalesces(s: Seq<char>)
    requires
        s.len() > 0,
        forall|i: int| 0 <= i < s.len() ==> s[i] == '+' || s[i] == '-',
    ensures
        filter_chars(s).len() == s.len(),
        coalesce_seq(filter_chars(s)) == seq![Instr::Add(net_add(s))],
    decreases s.len(),
{
    let c = s.last();
    let d: int = if c == '+' {
        1
    } else {
        255
    };
    if s.len() == 1 {
        assert(count_char(s.drop_last(), '+') == 0);
        assert(count_char(s.drop_last(), '-') == 0);
        assert(s[0] == c);
        assert(net_add(s) == d);
        assert(filter_chars(s.drop_last()) =~= Seq::<Instr>::empty());
        assert(filter_chars(s) =~= seq![Instr::Add((d as u8))]);
        assert(coalesce_seq(filter_chars(s)) =~= seq![Instr::Add(net_add(s))]);
    } else {
        let t = s.drop_last();
        assert(forall|i: int| 0 <= i < t.len() ==> t[i] == s[i]);
        lemma_only_add_coalesces(t);
        let fs = filter_chars(s);
        assert(fs == filter_chars(t).push(Instr::Add((d as u8))));
        assert(fs.drop_last() =~= filter_chars(t));
        let a = count_char(t, '+') + 255 * count_char(t, '-');
        assert(count_char(s, '+') + 255 * count_char(s, '-') == a + d);
        lemma_count_char_bounds(t, '+');
        lemma_count_char_bounds(t, '-');
        assert(a >= 0);
        vstd::arithmetic::div_mod::lemma_add_mod_noop(a, d, 256);
        assert(((a % 256) + d) % 256 == (a + d) % 256);
        assert(merged(Instr::Add(net_add(t)), Instr::Add((d as u8))) == Instr::Add(net_add(s)));
        assert(coalesce_seq(fs) =~= seq![Instr::Add(net_add(s))]);
    }
}

/// Any nonempty source of only `+` and `-` characters translates to the
/// single instruction `Add` whose delta is the net count of the two
/// characters modulo 256: each `+` adds one, each `-` adds 255.
pub proof fn lemma_translate_only_add(s: Seq<char>)
    requires
        s.len() > 0,
        forall|i: int| 0 <= i < s.len() ==> s[i] == '+' || s[i] == '-',
    ensures
        translate(s) == Ok::<Seq<Instr>, SyntaxError>(seq![Instr::Add(net_add(s))]),
{
    lemma_only_add_coalesces(s);
    let p = seq![Instr::Add(net_add(s))];
    assert(resolve_from(p, 1, Seq::empty()) == Ok::<Seq<Instr>, SyntaxError>(p));
    assert(resolve_from(p, 0, Seq::empty()) == resolve_from(p, 1, Seq::empty()));
}

proof fn lemma_only_move_coalesces(s: Seq<char>)
    requires
        s.len() > 0,
        s.len() <= isize::MAX,
        forall|i: int| 0 <= i < s.len() ==> s[i] == '>' || s[i] == '<',
    ensures
        filter_chars(s).len() == s.len(),
        -(s.len() as int) <= net_move(s) <= s.len() as int,
        coalesce_seq(filter_chars(s)) == seq![Instr::Ptr((net_move(s) as isize))],
    decreases s.len(),
{
    let c = s.last();
    let d: int = if c == '>' {
        1
    } else {
        -1
    };
    if s.len() == 1 {
        assert(count_char(s.drop_last(), '>') == 0);
        assert(count_char(s.drop_last(), '<') == 0);
        assert(s[0] == c);
        assert(net_move(s) == d);
        assert(filter_chars(s.drop_last()) =~= Seq::<Instr>::empty());
        assert(filter_chars(s) =~= seq![Instr::Ptr((d as isize))]);
        assert(coalesce_seq(filter_chars(s)) =~= seq![Instr::Ptr((net_move(s) as isize))]);
    } else {
        let t = s.drop_last();
        assert(forall|i: int| 0 <= i < t.len() ==> t[i] == s[i]);
        lemma_only_move_coalesces(t);
        let fs = filter_chars(s);
        assert(fs == filter_chars(t).push(Instr::Ptr((d as isize))));
        assert(fs.drop_last() =~= filter_chars(t));
        assert(net_move(s) == net_move(t) + d);
        assert(mergeable(Instr::Ptr((net_move(t) as isize)), Instr::Ptr((d as isize))));
        assert(merged(Instr::Ptr((net_move(t) as isize)), Instr::Ptr((d as isize)))
            == Instr::Ptr((net_move(s) as isize)));
        assert(coalesce_seq(fs) =~= seq![Instr::Ptr((net_move(s) as isize))]);
    }
}

/// Any nonempty source of only `>` and `<` characters, of a length the
/// pointer delta's type can hold, translates to the single instruction
/// `Ptr` of the signed net count: `>` minus `<`.
pub proof fn lemma_translate_only_move(s: Seq<char>)
    requires
        s.len() > 0,
        s.len() <= isize::MAX,
        forall|i: int| 0 <= i < s.len() ==> s[i] == '>' || s[i] == '<',
    ensures
        translate(s) == Ok::<Seq<Instr>, SyntaxError>(seq![Instr::Ptr((net_move(s) as isize))]),
{
    lemma_only_move_coalesces(s);
    let p = seq![Instr::Ptr((net_move(s) as isize))];
    assert(resolve_from(p, 1, Seq::empty()) == Ok::<Seq<Instr>, SyntaxError>(p));
    assert(resolve_from(p, 0, Seq::empty()) == resolve_from(p, 1, Seq::empty()));
}

/// The bracket at position `i`, if any, is half of a mutually pointing
/// pair: its target is the partner's index and the partner points back.
pub open spec fn bracket_matched_at(prog: Seq<Instr>, i: int) -> bool {
    match prog[i] {
        Instr::LoopBegin(t) => i < t < prog.len() && prog[t as int] == Instr::LoopEnd(i as usize),
        Instr::LoopEnd(t) => 0 <= t < i && prog[t as int] == Instr::LoopBegin(i as usize),
        _ => true,
    }
}

/// A well-formed program: every bracket is half of a matched, mutually
/// pointing pair.
pub open spec fn well_formed(prog: Seq<Instr>) -> bool {
    forall|i: int| 0 <= i < prog.len() ==> #[trigger] bracket_matched_at(prog, i)
}

/// A translated, bracket-resolved program. One with unmatched brackets is
/// never constructed: translation fails instead.
pub struct Program {
    instrs: Vec<Instr>,
}

impl View for Program {
    type V = Seq<Instr>;

    closed spec fn view(&self) -> Seq<Instr> {
        self.instrs@
    }
}

impl Program {
    /// Every bracket of this program is half of a matched, mutually
    /// pointing pair.
    pub open spec fn wf(&self) -> bool {
        well_formed(self@)
    }

    #[verifier::type_invariant]
    pub(crate) open spec fn type_inv(&self) -> bool {
        self.wf()
    }

    /// The instruction sequence.
    pub fn instrs(&self) -> (r: &Vec<Instr>)
        ensures
            r@ == self@,
    {
        &self.instrs
    }
}

/// The primitive instruction for one source character.
fn instr_exec(c: char) -> (r: Option<Instr>)
    ensures
        r == instr_of_char(c),
{
    match c {
        '+' => Some(Instr::Add(1)),
        '-' => Some(Instr::Add(255)),
        '>' => Some(Instr::Ptr(1)),
        '<' => Some(Instr::Ptr(-1)),
        '[' => Some(Instr::LoopBegin(0)),
        ']' => Some(Instr::LoopEnd(0)),
        '.' => Some(Instr::Out),
        ',' => Some(Instr::In),
        _ => None,
    }
}

/// Merges two instructions when the pair coalesces, and hands the pair
/// back otherwise: the shape itertools' `coalesce` asks of its closure.
fn combine(a: Instr, b: Instr) -> (r: Result<Instr, (Instr, Instr)>)
    ensures
        mergeable(a, b) ==> r == Ok::<Instr, (Instr, Instr)>(merged(a, b)),
        !mergeable(a, b) ==> r == Err::<Instr, (Instr, Instr)>((a, b)),
{
    match (a, b) {
        (Instr::Add(x), Instr::Add(y)) => Ok(Instr::Add((((x as u16) + (y as u16)) % 256) as u8)),
        (Instr::Ptr(x), Instr::Ptr(y)) => match x.checked_add(y) {
            Some(z) => Ok(Instr::Ptr(z)),
            None => Err((a, b)),
        },
        _ => Err((a, b)),
    }
}

/// Relies on itertools' `Itertools::coalesce`: scanning left to right, it
/// merges each element into the previously kept one exactly when the
/// closure returns `Ok` of the merged pair, and keeps both otherwise.
#[verifier::external_body]
fn coalesce_instrs(v: Vec<Instr>) -> (r: Vec<Instr>)
    ensures
        r@ == coalesce_seq(v@),
{
    v.into_iter().coalesce(|a, b| combine(a, b)).collect()
}

/// The instructions strictly before `bound` that are off the stack are
/// already linked: each is half of a mutually pointing pair below `bound`,
/// and no resolved `LoopEnd` points at a still open `LoopBegin`.
spec fn resolved_at(prog: Seq<Instr>, stack: Seq<usize>, bound: int, p: int) -> bool {
    match prog[p] {
        Instr::LoopBegin(t) => p < t < bound && prog[t as int] == Instr::LoopEnd(p as usize),
        Instr::LoopEnd(t) => 0 <= t < p && prog[t as int] == Instr::LoopBegin(p as usize)
            && !stack.contains(t),
        _ => true,
    }
}

impl Program {
    /// Translates source text: maps each command character to its
    /// primitive instruction and drops every other character, coalesces
    /// adjacent arithmetic instructions, then resolves the brackets. The
    /// result is exactly `translate` of the source, and a returned program
    /// is well formed.
    pub fn parse(source: &str) -> (r: Result<Program, SyntaxError>)
        ensures
            match r {
                Ok(p) => p.wf() && translate(source@) == Ok::<Seq<Instr>, SyntaxError>(p@),
                Err(e) => translate(source@) == Err::<Seq<Instr>, SyntaxError>(e),
            },
    {
        let mut prog: Vec<Instr> = Vec::new();
        for c in it: source.chars()
            invariant
                it.seq() == source@,
                prog@ == filter_chars(it.seq().take(it.index() as int)),
        {
            proof {
                let k = it.index() as int;
                assert(it.seq().take(k + 1).drop_last() =~= it.seq().take(k));
                assert(it.seq().take(k + 1).last() == c);
            }
            match instr_exec(c) {
                Some(ins) => prog.push(ins),
                None => (),
            }
        }
        proof {
            assert(source@.take(source@.len() as int) =~= source@);
        }
        let mut prog = coalesce_instrs(prog);
        let ghost coalesced = prog@;

        let mut jump_stack: Vec<usize> = Vec::new();
        let mut i: usize = 0;
        while i < prog.len()
            invariant
                i <= prog@.len(),
                prog@.len() == coalesced.len(),
                translate(source@) == resolve_from(coalesced, 0, Seq::empty()),
                resolve_from(coalesced, 0, Seq::empty()) == resolve_from(
                    prog@,
                    i as int,
                    jump_stack@,
                ),
                forall|p: int| i <= p < prog@.len() ==> prog@[p] == coalesced[p],
                forall|k: int|
                    0 <= k < jump_stack@.len() ==> (jump_stack@[k] as int) < i && prog@[(
                    jump_stack@[k] as int)] is LoopBegin,
                forall|k1: int, k2: int|
                    0 <= k1 < k2 < jump_stack@.len() ==> jump_stack@[k1] < jump_stack@[k2],
                forall|p: int|
                    0 <= p < i && !jump_stack@.contains(p as usize) ==> #[trigger] resolved_at(
                        prog@,
                        jump_stack@,
                        i as int,
                        p,
                    ),
            decreases prog@.len() - i,
        {
            let ghost pre_prog = prog@;
            let ghost pre_stack = jump_stack@;
            match prog[i] {
                Instr::LoopBegin(_) => {
                    jump_stack.push(i);
                    proof {
                        assert forall|p: int|
                            0 <= p < i + 1 && !jump_stack@.contains(p as usize) implies #[trigger] resolved_at(
                            prog@,
                            jump_stack@,
                            i as int + 1,
                            p,
                        ) by {
                            if p < i {
                                assert(!pre_stack.contains(p as usize)) by {
                                    if pre_stack.contains(p as usize) {
                                        let k = pre_stack.index_of(p as usize);
                                        assert(jump_stack@[k] == p as usize);
                                    }
                                }
                                assert(resolved_at(pre_prog, pre_stack, i as int, p));
                                if prog@[p] is LoopEnd {
                                    let t = prog@[p]->LoopEnd_0;
                                    assert(!jump_stack@.contains(t)) by {
                                        if jump_stack@.contains(t) {
                                            let k = jump_stack@.index_of(t);
                                            if k < pre_stack.len() {
                                                assert(pre_stack[k] == t);
                                            } else {
                                                assert(jump_stack@[k] == i as usize);
                                            }
                                        }
                                    }
                                }
                            } else {
                                assert(jump_stack@[jump_stack@.len() - 1] == i as usize);
                            }
                        }
                    }
                }
                Instr::LoopEnd(_) => {
                    match jump_stack.pop() {
                        None => {
                            proof {
                                assert(jump_stack@.len() == 0);
                                assert(resolve_from(prog@, i as int, jump_stack@)
                                    == Err::<Seq<Instr>, SyntaxError>(
                                    SyntaxError::UnmatchedClosingBracket(i as usize),
                                ));
                            }
                            return Err(SyntaxError::UnmatchedClosingBracket(i));
                        },
                        Some(other) => {
                            proof {
                                assert(pre_stack.last() == other);
                                assert((other as int) < i);
                            }
                            prog.set(other, Instr::LoopBegin(i));
                            prog.set(i, Instr::LoopEnd(other));
                            proof {
                                assert(jump_stack@ =~= pre_stack.drop_last());
                                assert(prog@ =~= pre_prog.update(
                                    other as int,
                                    Instr::LoopBegin(i as usize),
                                ).update(i as int, Instr::LoopEnd(other)));
                                // the popped index is on the stack only once
                                assert(!jump_stack@.contains(other)) by {
                                    if jump_stack@.contains(other) {
                                        let k = jump_stack@.index_of(other);
                                        assert(pre_stack[k] == other);
                                        assert(pre_stack[pre_stack.len() - 1] == other);
                                    }
                                }
                                assert forall|p: int|
                                    0 <= p < i + 1 && !jump_stack@.contains(p as usize) implies #[trigger] resolved_at(
                                    prog@,
                                    jump_stack@,
                                    i as int + 1,
                                    p,
                                ) by {
                                    if p == other {
                                        assert(prog@[p] == Instr::LoopBegin(i as usize));
                                    } else if p == i {
                                        assert(prog@[p] == Instr::LoopEnd(other));
                                    } else {
                                        assert(!pre_stack.contains(p as usize)) by {
                                            if pre_stack.contains(p as usize) {
                                                let k = pre_stack.index_of(p as usize);
                                                if k < pre_stack.len() - 1 {
                                                    assert(jump_stack@[k] == p as usize);
                                                } else {
                                                    assert(pre_stack[k] == other);
                                                }
                                            }
                                        }
                                        assert(resolved_at(pre_prog, pre_stack, i as int, p));
                                        match pre_prog[p] {
                                            Instr::LoopBegin(t) => {
                                                assert(pre_prog[t as int] == Instr::LoopEnd(
                                                    p as usize,
                                                ));
                                                assert(t != other as int && t != i as int);
                                            },
                                            Instr::LoopEnd(t) => {
                                                assert(pre_prog[t as int] == Instr::LoopBegin(
                                                    p as usize,
                                                ));
                                                assert(!pre_stack.contains(t));
                                                assert(t != other);
                                                assert(!jump_stack@.contains(t)) by {
                                                    if jump_stack@.contains(t) {
                                                        let k = jump_stack@.index_of(t);
                                                        assert(pre_stack[k] == t);
                                                    }
                                                }
                                            },
                                            _ => {},
                                        }
                                    }
                                }
                            }
                        },
                    }
                }
                _ => {
                    proof {
                        assert forall|p: int|
                            0 <= p < i + 1 && !jump_stack@.contains(p as usize) implies #[trigger] resolved_at(
                            prog@,
                            jump_stack@,
                            i as int + 1,
                            p,
                        ) by {
                            if p < i {
                                assert(resolved_at(prog@, jump_stack@, i as int, p));
                            }
                        }
                    }
                }
            }
            i = i + 1;
        }
        if jump_stack.len() != 0 {
            return Err(SyntaxError::UnmatchedOpeningBrackets(jump_stack.len()));
        }
        proof {
            assert forall|p: int| 0 <= p < prog@.len() implies #[trigger] bracket_matched_at(
                prog@,
                p,
            ) by {
                assert(!jump_stack@.contains(p as usize));
                assert(resolved_at(prog@, jump_stack@, prog@.len() as int, p));
            }
        }
        Ok(Program { instrs: prog })
    }
}

} // verus!
