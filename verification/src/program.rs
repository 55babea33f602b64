//! The program loader and validator: parses source text into a sequence of
//! positioned instructions and checks that loop brackets are well-nested.

use vstd::prelude::*;
use vstd::string::StrSliceExecFns;
use crate::errors::VMError;

verus! {

/// One instruction of the language.
///
/// Every variant carries the 1-based source line and column it came from, so
/// diagnostics can point at the exact character.  Characters outside the
/// eight-symbol instruction set are kept as `Comment`, never dropped.
#[derive(Clone, Copy, Debug, PartialEq, Eq, Structural)]
pub enum Instruction {
    /// `>`: move the head to the next cell on the right.
    IncrementDP(usize, usize),
    /// `<`: move the head to the next cell on the left.
    DecrementDP(usize, usize),
    /// `+`: increase the byte at the head by one, wrapping.
    IncrementByte(usize, usize),
    /// `-`: decrease the byte at the head by one, wrapping.
    DecrementByte(usize, usize),
    /// `.`: write the byte at the head to the output sink.
    Output(usize, usize),
    /// `,`: read one byte from the input source into the cell at the head.
    Input(usize, usize),
    /// `[`: if the byte at the head is zero, jump past the matching `]`.
    JumpForward(usize, usize),
    /// `]`: if the byte at the head is nonzero, jump back after the matching `[`.
    JumpBack(usize, usize),
    /// Any other source character, kept with its position.
    Comment(usize, usize, char),
}

/// The source position an instruction carries.
pub open spec fn pos_of(i: Instruction) -> (usize, usize) {
    match i {
        Instruction::IncrementDP(l, c) => (l, c),
        Instruction::DecrementDP(l, c) => (l, c),
        Instruction::IncrementByte(l, c) => (l, c),
        Instruction::DecrementByte(l, c) => (l, c),
        Instruction::Output(l, c) => (l, c),
        Instruction::Input(l, c) => (l, c),
        Instruction::JumpForward(l, c) => (l, c),
        Instruction::JumpBack(l, c) => (l, c),
        Instruction::Comment(l, c, _) => (l, c),
    }
}

/// Whether the instruction opens a loop.
pub open spec fn is_open(i: Instruction) -> bool {
    i is JumpForward
}

/// Whether the instruction closes a loop.
pub open spec fn is_close(i: Instruction) -> bool {
    i is JumpBack
}

/// The contribution of one instruction to the bracket nesting depth.
pub open spec fn delta(i: Instruction) -> int {
    if is_open(i) {
        1
    } else if is_close(i) {
        -1
    } else {
        0
    }
}

/// Opening brackets minus closing brackets over a whole sequence.
pub open spec fn net_depth(s: Seq<Instruction>) -> int
    decreases s.len(),
{
    if s.len() == 0 {
        0
    } else {
        net_depth(s.drop_last()) + delta(s.last())
    }
}

/// The standard parenthesis-matching law: every prefix has at least as many
/// opening as closing brackets, and the whole sequence has equally many.
pub open spec fn balanced(s: Seq<Instruction>) -> bool {
    net_depth(s) == 0 && forall|j: int| 0 <= j <= s.len() ==> #[trigger] net_depth(s.take(j)) >= 0
}

/// The instruction a single source character maps to.
pub open spec fn instr_of(line: int, col: int, c: char) -> Instruction {
    if c == '>' {
        Instruction::IncrementDP(line as usize, col as usize)
    } else if c == '<' {
        Instruction::DecrementDP(line as usize, col as usize)
    } else if c == '+' {
        Instruction::IncrementByte(line as usize, col as usize)
    } else if c == '-' {
        Instruction::DecrementByte(line as usize, col as usize)
    } else if c == '.' {
        Instruction::Output(line as usize, col as usize)
    } else if c == ',' {
        Instruction::Input(line as usize, col as usize)
    } else if c == '[' {
        Instruction::JumpForward(line as usize, col as usize)
    } else if c == ']' {
        Instruction::JumpBack(line as usize, col as usize)
    } else {
        Instruction::Comment(line as usize, col as usize, c)
    }
}

/// The instruction sequence a source text parses to, starting at the given
/// 1-based line and column.  A line feed ends the line, as does a carriage
/// return directly followed by a line feed; line-break characters themselves
/// produce no instruction, every other character produces exactly one.
pub open spec fn parse_rec(s: Seq<char>, line: int, col: int) -> Seq<Instruction>
    decreases s.len(),
{
    if s.len() == 0 {
        Seq::empty()
    } else if s[0] == '\n' {
        parse_rec(s.skip(1), line + 1, 1)
    } else if s[0] == '\r' && s.len() >= 2 && s[1] == '\n' {
        parse_rec(s.skip(2), line + 1, 1)
    } else {
        seq![instr_of(line, col, s[0])] + parse_rec(s.skip(1), line, col + 1)
    }
}

impl Instruction {
    /// Maps one source character, with its position, to its instruction.
    /// Every character has a representation, so this cannot fail.
    pub fn from_char(line: usize, col: usize, c: char) -> (r: Instruction)
        ensures
            r == instr_of(line as int, col as int, c),
    {
        match c {
            '>' => Instruction::IncrementDP(line, col),
            '<' => Instruction::DecrementDP(line, col),
            '+' => Instruction::IncrementByte(line, col),
            '-' => Instruction::DecrementByte(line, col),
            '.' => Instruction::Output(line, col),
            ',' => Instruction::Input(line, col),
            '[' => Instruction::JumpForward(line, col),
            ']' => Instruction::JumpBack(line, col),
            _ => Instruction::Comment(line, col, c),
        }
    }
}

/// What a left-to-right scan with a stack of open-bracket positions reports
/// for the rest of a program: `stack` holds the positions of the opening
/// brackets seen so far that are still unmatched, innermost last.
pub open spec fn validate_spec(s: Seq<Instruction>, stack: Seq<(usize, usize)>) -> Result<
    (),
    VMError,
>
    decreases s.len(),
{
    if s.len() == 0 {
        if stack.len() == 0 {
            Ok(())
        } else {
            Err(
                VMError::BracketMismatch {
                    open: true,
                    line: stack.last().0,
                    column: stack.last().1,
                },
            )
        }
    } else if is_open(s[0]) {
        validate_spec(s.skip(1), stack.push(pos_of(s[0])))
    } else if is_close(s[0]) {
        if stack.len() == 0 {
            Err(
                VMError::BracketMismatch {
                    open: false,
                    line: pos_of(s[0]).0,
                    column: pos_of(s[0]).1,
                },
            )
        } else {
            validate_spec(s.skip(1), stack.drop_last())
        }
    } else {
        validate_spec(s.skip(1), stack)
    }
}

/// Splitting a sequence splits its bracket count.
proof fn lemma_net_depth_concat(u: Seq<Instruction>, v: Seq<Instruction>)
    ensures
        net_depth(u + v) == net_depth(u) + net_depth(v),
    decreases v.len(),
{
    if v.len() == 0 {
        assert(u + v =~= u);
    } else {
        assert((u + v).drop_last() =~= u + v.drop_last());
        assert((u + v).last() == v.last());
        lemma_net_depth_concat(u, v.drop_last());
    }
}

/// The bracket count of a single instruction is its depth contribution.
proof fn lemma_net_depth_single(x: Instruction)
    ensures
        net_depth(seq![x]) == delta(x),
{
    assert(seq![x].drop_last() =~= Seq::<Instruction>::empty());
    assert(net_depth(seq![x].drop_last()) == 0);
}

/// `balanced`, seen from the middle of a scan that still has `d` unmatched
/// opening brackets behind it.
pub open spec fn balanced_from(s: Seq<Instruction>, d: int) -> bool {
    d + net_depth(s) == 0 && forall|j: int|
        0 <= j <= s.len() ==> d + #[trigger] net_depth(s.take(j)) >= 0
}

/// The stack scan accepts the rest of a program exactly when the rest is
/// balanced, given the number of opening brackets still on the stack.
proof fn lemma_validate_spec_ok(s: Seq<Instruction>, stack: Seq<(usize, usize)>)
    ensures
        validate_spec(s, stack) is Ok <==> balanced_from(s, stack.len() as int),
    decreases s.len(),
{
    let d = stack.len() as int;
    if s.len() == 0 {
        assert(s.take(0) =~= s);
        if stack.len() == 0 {
            assert forall|j: int| 0 <= j <= s.len() implies d + #[trigger] net_depth(s.take(j))
                >= 0 by {
                assert(s.take(j) =~= s);
            }
        } else {
            assert(d + net_depth(s) == d);
        }
    } else {
        let x = s[0];
        let t = s.skip(1);
        assert(s =~= seq![x] + t);
        lemma_net_depth_single(x);
        lemma_net_depth_concat(seq![x], t);
        assert forall|j: int| 1 <= j <= s.len() implies s.take(j) =~= seq![x] + t.take(j - 1) by {}
        assert forall|j: int| 1 <= j <= s.len() implies #[trigger] net_depth(s.take(j)) == delta(x)
            + net_depth(t.take(j - 1)) by {
            assert(s.take(j) =~= seq![x] + t.take(j - 1));
            lemma_net_depth_concat(seq![x], t.take(j - 1));
        }
        assert(s.take(0) =~= Seq::<Instruction>::empty());
        assert(net_depth(s.take(0)) == 0);
        if is_open(x) {
            let st2 = stack.push(pos_of(x));
            lemma_validate_spec_ok(t, st2);
            assert(validate_spec(s, stack) == validate_spec(t, st2));
            if balanced_from(s, d) {
                assert forall|j: int| 0 <= j <= t.len() implies (d + 1) + #[trigger] net_depth(
                    t.take(j),
                ) >= 0 by {
                    assert(net_depth(s.take(j + 1)) == delta(x) + net_depth(t.take(j)));
                    assert(d + net_depth(s.take(j + 1)) >= 0);
                }
                assert(balanced_from(t, d + 1));
            }
            if balanced_from(t, d + 1) {
                assert forall|j: int| 0 <= j <= s.len() implies d + #[trigger] net_depth(s.take(j))
                    >= 0 by {
                    if j >= 1 {
                        assert((d + 1) + net_depth(t.take(j - 1)) >= 0);
                    }
                }
                assert(balanced_from(s, d));
            }
        } else if is_close(x) {
            if stack.len() == 0 {
                assert(net_depth(s.take(1)) == delta(x) + net_depth(t.take(0)));
                assert(t.take(0) =~= Seq::<Instruction>::empty());
                assert(net_depth(s.take(1)) == -1);
                assert(!balanced_from(s, d));
            } else {
                let st2 = stack.drop_last();
                lemma_validate_spec_ok(t, st2);
                assert(validate_spec(s, stack) == validate_spec(t, st2));
                if balanced_from(s, d) {
                    assert forall|j: int| 0 <= j <= t.len() implies (d - 1) + #[trigger] net_depth(
                        t.take(j),
                    ) >= 0 by {
                        assert(net_depth(s.take(j + 1)) == delta(x) + net_depth(t.take(j)));
                        assert(d + net_depth(s.take(j + 1)) >= 0);
                    }
                    assert(balanced_from(t, d - 1));
                }
                if balanced_from(t, d - 1) {
                    assert forall|j: int| 0 <= j <= s.len() implies d + #[trigger] net_depth(
                        s.take(j),
                    ) >= 0 by {
                        if j >= 1 {
                            assert((d - 1) + net_depth(t.take(j - 1)) >= 0);
                        }
                    }
                    assert(balanced_from(s, d));
                }
            }
        } else {
            lemma_validate_spec_ok(t, stack);
            assert(validate_spec(s, stack) == validate_spec(t, stack));
            if balanced_from(s, d) {
                assert forall|j: int| 0 <= j <= t.len() implies d + #[trigger] net_depth(t.take(j))
                    >= 0 by {
                    assert(net_depth(s.take(j + 1)) == delta(x) + net_depth(t.take(j)));
                    assert(d + net_depth(s.take(j + 1)) >= 0);
                }
                assert(balanced_from(t, d));
            }
            if balanced_from(t, d) {
                assert forall|j: int| 0 <= j <= s.len() implies d + #[trigger] net_depth(s.take(j))
                    >= 0 by {
                    if j >= 1 {
                        assert(d + net_depth(t.take(j - 1)) >= 0);
                    }
                }
                assert(balanced_from(s, d));
            }
        }
    }
}

/// A full program is accepted by the stack scan exactly when its brackets
/// are well-nested: this is the parenthesis-matching law the validator obeys.
pub proof fn lemma_validate_iff_balanced(s: Seq<Instruction>)
    ensures
        validate_spec(s, Seq::<(usize, usize)>::empty()) is Ok <==> balanced(s),
{
    lemma_validate_spec_ok(s, Seq::<(usize, usize)>::empty());
    if balanced_from(s, 0) {
        assert(net_depth(s) == 0);
    }
    if balanced(s) {
        assert forall|j: int| 0 <= j <= s.len() implies 0 + #[trigger] net_depth(s.take(j))
            >= 0 by {}
    }
}

/// The source character an instruction renders back to: one of the eight
/// symbols for an instruction proper, nothing for a comment.
pub open spec fn symbol_of(i: Instruction) -> Seq<char> {
    match i {
        Instruction::IncrementDP(_, _) => seq!['>'],
        Instruction::DecrementDP(_, _) => seq!['<'],
        Instruction::IncrementByte(_, _) => seq!['+'],
        Instruction::DecrementByte(_, _) => seq!['-'],
        Instruction::Output(_, _) => seq!['.'],
        Instruction::Input(_, _) => seq![','],
        Instruction::JumpForward(_, _) => seq!['['],
        Instruction::JumpBack(_, _) => seq![']'],
        Instruction::Comment(_, _, _) => Seq::empty(),
    }
}

/// The text a whole instruction sequence renders back to.
pub open spec fn render_spec(s: Seq<Instruction>) -> Seq<char>
    decreases s.len(),
{
    if s.len() == 0 {
        Seq::empty()
    } else {
        symbol_of(s[0]) + render_spec(s.skip(1))
    }
}

/// A parsed program: the ordered instruction sequence and the name of the
/// source it came from.  The sequence is never mutated after construction.
#[derive(Clone, Debug)]
pub struct Program {
    /// The name of the source the program was loaded from.
    pub filename: String,
    /// The instructions, in source order, comments included.
    pub ins: Vec<Instruction>,
}

impl Program {
    /// Parses source text into a program.
    ///
    /// The scan walks the text character by character; positions are 1-based
    /// and the column resets at each line break.  Parsing cannot fail: every
    /// character maps to an instruction, unknown ones to comments.
    pub fn new(filename: String, content: &str) -> (p: Program)
        requires
            content@.len() < usize::MAX,
        ensures
            p.filename == filename,
            p.ins@ == parse_rec(content@, 1, 1),
    {
        let n = content.unicode_len();
        let mut ins: Vec<Instruction> = Vec::new();
        let mut i: usize = 0;
        let mut line: usize = 1;
        let mut col: usize = 1;
        proof {
            assert(content@.skip(0) =~= content@);
            assert(ins@ + parse_rec(content@, 1, 1) =~= parse_rec(content@, 1, 1));
        }
        while i < n
            invariant
                i <= n,
                n == content@.len(),
                n < usize::MAX,
                1 <= line <= i + 1,
                1 <= col <= i + 1,
                parse_rec(content@, 1, 1) == ins@ + parse_rec(
                    content@.skip(i as int),
                    line as int,
                    col as int,
                ),
            decreases n - i,
        {
            let ghost prev = content@.skip(i as int);
            let ghost ins_prev = ins@;
            let c = content.get_char(i);
            let mut line_break = false;
            let mut width: usize = 1;
            if c == '\n' {
                line_break = true;
            } else if c == '\r' && i + 1 < n {
                if content.get_char(i + 1) == '\n' {
                    line_break = true;
                    width = 2;
                }
            }
            if line_break {
                proof {
                    assert(prev.skip(width as int) =~= content@.skip(i + width));
                }
                line = line + 1;
                col = 1;
                i = i + width;
            } else {
                ins.push(Instruction::from_char(line, col, c));
                proof {
                    assert(prev.skip(1) =~= content@.skip(i + 1));
                    assert(parse_rec(prev, line as int, col as int) == seq![
                        instr_of(line as int, col as int, c),
                    ] + parse_rec(content@.skip(i + 1), line as int, col + 1));
                    assert(ins_prev + parse_rec(prev, line as int, col as int) =~= ins@
                        + parse_rec(content@.skip(i + 1), line as int, col + 1));
                }
                col = col + 1;
                i = i + 1;
            }
        }
        proof {
            assert(content@.skip(n as int).len() == 0);
            assert(ins@ + parse_rec(content@.skip(n as int), line as int, col as int) =~= ins@);
        }
        Program { filename, ins }
    }

    /// Hands back the name of the source the program was loaded from.
    pub fn source_file(self) -> (r: String)
        ensures
            r == self.filename,
    {
        self.filename
    }

    /// Borrows the internal instruction sequence.
    pub fn instructions(&self) -> (r: &[Instruction])
        ensures
            r@ == self.ins@,
    {
        self.ins.as_slice()
    }

    /// Renders the program back to its code characters, comments left out.
    pub fn code_text(&self) -> (s: String)
        ensures
            s@ == render_spec(self.ins@),
    {
        let mut s = String::new();
        let n = self.ins.len();
        let mut i: usize = 0;
        proof {
            assert(self.ins@.skip(0) =~= self.ins@);
            assert(s@ + render_spec(self.ins@) =~= render_spec(self.ins@));
            reveal_strlit(">");
            reveal_strlit("<");
            reveal_strlit("+");
            reveal_strlit("-");
            reveal_strlit(".");
            reveal_strlit(",");
            reveal_strlit("[");
            reveal_strlit("]");
        }
        while i < n
            invariant
                i <= n,
                n == self.ins@.len(),
                render_spec(self.ins@) == s@ + render_spec(self.ins@.skip(i as int)),
            decreases n - i,
        {
            let ghost prev = self.ins@.skip(i as int);
            let ghost s_prev = s@;
            proof {
                assert(prev.skip(1) =~= self.ins@.skip(i + 1));
                reveal_strlit(">");
                reveal_strlit("<");
                reveal_strlit("+");
                reveal_strlit("-");
                reveal_strlit(".");
                reveal_strlit(",");
                reveal_strlit("[");
                reveal_strlit("]");
            }
            match self.ins[i] {
                Instruction::IncrementDP(_, _) => s.append(">"),
                Instruction::DecrementDP(_, _) => s.append("<"),
                Instruction::IncrementByte(_, _) => s.append("+"),
                Instruction::DecrementByte(_, _) => s.append("-"),
                Instruction::Output(_, _) => s.append("."),
                Instruction::Input(_, _) => s.append(","),
                Instruction::JumpForward(_, _) => s.append("["),
                Instruction::JumpBack(_, _) => s.append("]"),
                Instruction::Comment(_, _, _) => {},
            }
            proof {
                assert(s@ =~= s_prev + symbol_of(prev[0]));
                assert(s_prev + render_spec(prev) =~= s@ + render_spec(self.ins@.skip(i + 1)));
            }
            i = i + 1;
        }
        proof {
            assert(render_spec(self.ins@.skip(n as int)) =~= Seq::<char>::empty());
            assert(s@ + render_spec(self.ins@.skip(n as int)) =~= s@);
        }
        s
    }

    /// Checks that loop brackets are well-nested: a single left-to-right
    /// scan keeps a stack of open-bracket positions, pops one at each close,
    /// and reports the first bracket that has no partner.  Succeeds exactly
    /// when the brackets are balanced; execution relies on this check having
    /// passed.
    pub fn validate(&self) -> (r: Result<(), VMError>)
        ensures
            r == validate_spec(self.ins@, Seq::<(usize, usize)>::empty()),
            r is Ok <==> balanced(self.ins@),
    {
        let mut stack: Vec<(usize, usize)> = Vec::new();
        let n = self.ins.len();
        let mut i: usize = 0;
        proof {
            assert(self.ins@.skip(0) =~= self.ins@);
        }
        while i < n
            invariant
                i <= n,
                n == self.ins@.len(),
                validate_spec(self.ins@, Seq::<(usize, usize)>::empty()) == validate_spec(
                    self.ins@.skip(i as int),
                    stack@,
                ),
            decreases n - i,
        {
            let ghost prev = self.ins@.skip(i as int);
            let ghost stack_prev = stack@;
            proof {
                assert(prev.skip(1) =~= self.ins@.skip(i + 1));
            }
            match self.ins[i] {
                Instruction::JumpForward(l, c) => {
                    stack.push((l, c));
                },
                Instruction::JumpBack(l, c) => {
                    if stack.len() == 0 {
                        proof {
                            assert(validate_spec(prev, stack@) == Err::<(), VMError>(
                                VMError::BracketMismatch { open: false, line: l, column: c },
                            ));
                            lemma_validate_iff_balanced(self.ins@);
                        }
                        return Err(VMError::BracketMismatch { open: false, line: l, column: c });
                    }
                    stack.pop();
                    proof {
                        assert(stack@ =~= stack_prev.drop_last());
                    }
                },
                _ => {},
            }
            i = i + 1;
        }
        proof {
            assert(self.ins@.skip(n as int).len() == 0);
            lemma_validate_iff_balanced(self.ins@);
        }
        if stack.len() > 0 {
            let p = stack[stack.len() - 1];
            return Err(VMError::BracketMismatch { open: true, line: p.0, column: p.1 });
        }
        Ok(())
    }
}

} // verus!
