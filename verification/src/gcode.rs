//! The instruction model: a small token algebra for motion-control text, a
//! block of tokens sharing one output line, and a document builder that
//! accumulates blocks and serializes them one per line.

use vstd::prelude::*;
use vstd::string::StringExecFns;
use crate::decimal::dec_str;
use crate::decimal::fixed_str;
use crate::decimal::push_dec;
use crate::decimal::push_fixed;

verus! {

/// One typed instruction token. Coordinates (`X`, `Y`) carry fixed-point
/// values and print with exactly six decimals; the letter codes carry plain
/// integers and print with none.
#[derive(Debug, Clone, PartialEq)]
pub enum GcodeInstruction {
    G(u16),
    S(u16),
    M(u16),
    F(u16),
    X(i64),
    Y(i64),
    Custom(String),
}

/// The mathematical image of an instruction token: custom text is carried
/// as its character sequence.
#[verifier::ext_equal]
pub enum InsView {
    G(u16),
    S(u16),
    M(u16),
    F(u16),
    X(i64),
    Y(i64),
    Custom(Seq<char>),
}

impl View for GcodeInstruction {
    type V = InsView;

    open spec fn view(&self) -> InsView {
        match self {
            GcodeInstruction::G(n) => InsView::G(*n),
            GcodeInstruction::S(n) => InsView::S(*n),
            GcodeInstruction::M(n) => InsView::M(*n),
            GcodeInstruction::F(n) => InsView::F(*n),
            GcodeInstruction::X(v) => InsView::X(*v),
            GcodeInstruction::Y(v) => InsView::Y(*v),
            GcodeInstruction::Custom(s) => InsView::Custom(s@),
        }
    }
}

/// The exact text of one instruction token.
pub open spec fn ins_str(i: InsView) -> Seq<char> {
    match i {
        InsView::G(n) => seq!['G'] + dec_str(n as nat),
        InsView::S(n) => seq!['S'] + dec_str(n as nat),
        InsView::M(n) => seq!['M'] + dec_str(n as nat),
        InsView::F(n) => seq!['F'] + dec_str(n as nat),
        InsView::X(v) => seq!['X'] + fixed_str(v as int),
        InsView::Y(v) => seq!['Y'] + fixed_str(v as int),
        InsView::Custom(s) => s,
    }
}

impl GcodeInstruction {
    /// This token's text.
    pub fn text(&self) -> (r: String)
        ensures
            r@ == ins_str(self@),
    {
        let mut s = String::new();
        match self {
            GcodeInstruction::G(n) => {
                proof {
                    reveal_strlit("G");
                }
                s.append("G");
                assert(s@ =~= seq!['G']);
                push_dec(&mut s, *n as u64);
            }
            GcodeInstruction::S(n) => {
                proof {
                    reveal_strlit("S");
                }
                s.append("S");
                assert(s@ =~= seq!['S']);
                push_dec(&mut s, *n as u64);
            }
            GcodeInstruction::M(n) => {
                proof {
                    reveal_strlit("M");
                }
                s.append("M");
                assert(s@ =~= seq!['M']);
                push_dec(&mut s, *n as u64);
            }
            GcodeInstruction::F(n) => {
                proof {
                    reveal_strlit("F");
                }
                s.append("F");
                assert(s@ =~= seq!['F']);
                push_dec(&mut s, *n as u64);
            }
            GcodeInstruction::X(v) => {
                proof {
                    reveal_strlit("X");
                }
                s.append("X");
                assert(s@ =~= seq!['X']);
                push_fixed(&mut s, *v);
            }
            GcodeInstruction::Y(v) => {
                proof {
                    reveal_strlit("Y");
                }
                s.append("Y");
                assert(s@ =~= seq!['Y']);
                push_fixed(&mut s, *v);
            }
            GcodeInstruction::Custom(c) => {
                s = c.clone();
            }
        }
        s
    }
}

/// The mathematical image of a block: its tokens and optional comment text.
#[verifier::ext_equal]
pub struct BlockView {
    pub codes: Seq<InsView>,
    pub comment: Option<Seq<char>>,
}

/// One output line's worth of instructions, with an optional trailing
/// comment.
#[derive(Debug)]
pub struct GcodeBlock {
    pub codes: Vec<GcodeInstruction>,
    pub comment: Option<String>,
}

impl View for GcodeBlock {
    type V = BlockView;

    open spec fn view(&self) -> BlockView {
        BlockView {
            codes: self.codes@.map_values(|i: GcodeInstruction| i@),
            comment: match self.comment {
                Some(ref c) => Some(c@),
                None => None,
            },
        }
    }
}

/// The tokens of a block space-separated, with no trailing separator.
pub open spec fn codes_str(codes: Seq<InsView>) -> Seq<char>
    decreases codes.len(),
{
    if codes.len() == 0 {
        Seq::<char>::empty()
    } else if codes.len() == 1 {
        ins_str(codes[0])
    } else {
        codes_str(codes.drop_last()) + seq![' '] + ins_str(codes.last())
    }
}

/// The exact text of one block: the tokens space-separated, then — if
/// present — the parenthesized comment, space-separated from the tokens; a
/// block with no tokens is just the parenthesized comment, or empty.
pub open spec fn block_str(b: BlockView) -> Seq<char> {
    if b.codes.len() > 0 {
        match b.comment {
            Some(c) => codes_str(b.codes) + seq![' ', '('] + c + seq![')'],
            None => codes_str(b.codes),
        }
    } else {
        match b.comment {
            Some(c) => seq!['('] + c + seq![')'],
            None => Seq::<char>::empty(),
        }
    }
}

impl Default for GcodeBlock {
    /// An empty block: no tokens, no comment.
    fn default() -> (r: GcodeBlock)
        ensures
            r@ == (BlockView { codes: Seq::<InsView>::empty(), comment: None }),
    {
        let r = GcodeBlock { codes: Vec::new(), comment: None };
        assert(r@ =~= (BlockView { codes: Seq::<InsView>::empty(), comment: None }));
        r
    }
}

impl GcodeBlock {
    /// How many instruction tokens the block holds (the comment does not
    /// count).
    pub fn len(&self) -> (r: usize)
        ensures
            r == self@.codes.len(),
    {
        self.codes.len()
    }

    /// Append one instruction token.
    pub fn push(&mut self, code: GcodeInstruction)
        ensures
            final(self)@.codes == old(self)@.codes.push(code@),
            final(self)@.comment == old(self)@.comment,
    {
        let ghost cv = code@;
        self.codes.push(code);
        proof {
            assert(final(self)@.codes =~= old(self)@.codes.push(cv));
        }
    }

    /// Add comment text. A first comment is stored as given; a later one is
    /// joined to it with a semicolon and a space.
    pub fn add_comment(&mut self, text: &str)
        ensures
            final(self)@.codes == old(self)@.codes,
            final(self)@.comment == (match old(self)@.comment {
                None => Some(text@),
                Some(c) => Some(c + seq![';', ' '] + text@),
            }),
    {
        match &mut self.comment {
            Some(c) => {
                proof {
                    reveal_strlit("; ");
                }
                assert("; "@ =~= seq![';', ' ']);
                c.append("; ");
                c.append(text);
            }
            None => {
                self.comment = Some(text.to_owned());
            }
        }
    }

    /// This block's exact line of text (without the line terminator).
    pub fn text(&self) -> (r: String)
        ensures
            r@ == block_str(self@),
    {
        let mut s = String::new();
        let ghost cv = self@.codes;
        let mut i: usize = 0;
        while i < self.codes.len()
            invariant
                cv == self@.codes,
                self.codes@.len() == cv.len(),
                0 <= i <= cv.len(),
                s@ == codes_str(cv.take(i as int)),
            decreases cv.len() - i,
        {
            proof {
                assert(cv.take(i + 1 as int).drop_last() =~= cv.take(i as int));
                assert(cv.take(i + 1 as int).last() == cv[i as int]);
                assert(self.codes@[i as int]@ == cv[i as int]);
            }
            if i > 0 {
                proof {
                    reveal_strlit(" ");
                }
                assert(" "@ =~= seq![' ']);
                s.append(" ");
            }
            let t = self.codes[i].text();
            s.append(t.as_str());
            proof {
                if i == 0 {
                    assert(cv.take(1).len() == 1);
                    assert(s@ =~= codes_str(cv.take(1)));
                } else {
                    assert(s@ =~= codes_str(cv.take(i + 1 as int)));
                }
            }
            i = i + 1;
        }
        proof {
            assert(cv.take(cv.len() as int) =~= cv);
        }
        match &self.comment {
            Some(c) => {
                proof {
                    reveal_strlit(" (");
                    reveal_strlit("(");
                    reveal_strlit(")");
                }
                if self.codes.len() > 0 {
                    assert(" ("@ =~= seq![' ', '(']);
                    s.append(" (");
                } else {
                    assert("("@ =~= seq!['(']);
                    s.append("(");
                }
                s.append(c.as_str());
                assert(")"@ =~= seq![')']);
                s.append(")");
                assert(s@ =~= block_str(self@));
            }
            None => {
                assert(s@ =~= block_str(self@));
            }
        }
        s
    }
}

/// The mathematical image of the builder: the finished blocks and the block
/// still accumulating.
#[verifier::ext_equal]
pub struct BuilderView {
    pub blocks: Seq<BlockView>,
    pub current: BlockView,
}

/// The block that ends every document: the program-end code on a line of
/// its own.
pub open spec fn end_block() -> BlockView {
    BlockView { codes: seq![InsView::M(30)], comment: None }
}

/// The serialized document: every block's text, each followed by a newline.
pub open spec fn doc_str(blocks: Seq<BlockView>) -> Seq<char>
    decreases blocks.len(),
{
    if blocks.len() == 0 {
        Seq::<char>::empty()
    } else {
        doc_str(blocks.drop_last()) + block_str(blocks.last()) + seq!['\n']
    }
}

/// The blocks a builder's `finish` serializes: the finished blocks, the
/// accumulating block unless it is empty (no token and no comment), and
/// the program-end block.
pub open spec fn finished_blocks(b: BuilderView) -> Seq<BlockView> {
    if b.current.codes.len() > 0 || b.current.comment is Some {
        b.blocks.push(b.current).push(end_block())
    } else {
        b.blocks.push(end_block())
    }
}

/// Accumulates instruction blocks and serializes them, one block per line,
/// always ending with the program-end block. Consumed by `finish`, so a
/// document can only be finished once.
#[derive(Debug)]
pub struct GcodeBuilder {
    pub inner: Vec<GcodeBlock>,
    pub current_block: GcodeBlock,
}

impl View for GcodeBuilder {
    type V = BuilderView;

    open spec fn view(&self) -> BuilderView {
        BuilderView {
            blocks: self.inner@.map_values(|b: GcodeBlock| b@),
            current: self.current_block@,
        }
    }
}

impl Default for GcodeBuilder {
    /// A builder with no finished block and an empty accumulating block.
    fn default() -> (r: GcodeBuilder)
        ensures
            r@.blocks.len() == 0,
            r@.current.codes.len() == 0,
            r@.current.comment is None,
    {
        let r = GcodeBuilder { inner: Vec::new(), current_block: GcodeBlock::default() };
        assert(r@.blocks =~= Seq::<BlockView>::empty());
        r
    }
}

impl GcodeBuilder {
    /// The view after pushing one token onto the accumulating block.
    pub open spec fn with_code(b: BuilderView, code: InsView) -> BuilderView {
        BuilderView {
            blocks: b.blocks,
            current: BlockView { codes: b.current.codes.push(code), comment: b.current.comment },
        }
    }

    /// Push one finished block holding the fixed setup codes: work-offset
    /// select, XY-plane select, millimetre units, absolute positioning, and
    /// feed-per-minute mode.
    pub fn default_header(&mut self)
        ensures
            final(self)@.blocks == old(self)@.blocks.push(
                BlockView {
                    codes: seq![
                        InsView::G(54),
                        InsView::G(17),
                        InsView::G(21),
                        InsView::G(90),
                        InsView::G(94),
                    ],
                    comment: None,
                },
            ),
            final(self)@.current == old(self)@.current,
    {
        let mut block = GcodeBlock::default();
        block.push(GcodeInstruction::G(54));
        block.push(GcodeInstruction::G(17));
        block.push(GcodeInstruction::G(21));
        block.push(GcodeInstruction::G(90));
        block.push(GcodeInstruction::G(94));
        proof {
            assert(block@.codes =~= seq![
                InsView::G(54),
                InsView::G(17),
                InsView::G(21),
                InsView::G(90),
                InsView::G(94),
            ]);
        }
        self.inner.push(block);
        proof {
            assert(final(self)@.blocks =~= old(self)@.blocks.push(
                BlockView {
                    codes: seq![
                        InsView::G(54),
                        InsView::G(17),
                        InsView::G(21),
                        InsView::G(90),
                        InsView::G(94),
                    ],
                    comment: None,
                },
            ));
        }
    }

    /// Coolant on or off.
    pub fn coolant(&mut self, on: bool)
        ensures
            final(self)@ == Self::with_code(
                old(self)@,
                InsView::M(if on { 8u16 } else { 9u16 }),
            ),
    {
        if on {
            self.current_block.push(GcodeInstruction::M(8));
        } else {
            self.current_block.push(GcodeInstruction::M(9));
        }
    }

    /// Laser power level (0..=1000 on the target controller).
    pub fn laser_power(&mut self, power: u16)
        ensures
            final(self)@ == Self::with_code(old(self)@, InsView::S(power)),
    {
        self.current_block.push(GcodeInstruction::S(power));
    }

    /// An X coordinate, in fixed-point millimetres.
    pub fn x(&mut self, x: i64)
        ensures
            final(self)@ == Self::with_code(old(self)@, InsView::X(x)),
    {
        self.current_block.push(GcodeInstruction::X(x));
    }

    /// A Y coordinate, in fixed-point millimetres.
    pub fn y(&mut self, y: i64)
        ensures
            final(self)@ == Self::with_code(old(self)@, InsView::Y(y)),
    {
        self.current_block.push(GcodeInstruction::Y(y));
    }

    /// Feed rate, in millimetres per minute.
    pub fn feed(&mut self, feed: u16)
        ensures
            final(self)@ == Self::with_code(old(self)@, InsView::F(feed)),
    {
        self.current_block.push(GcodeInstruction::F(feed));
    }

    /// Laser on at constant power.
    pub fn laser_on_const(&mut self)
        ensures
            final(self)@ == Self::with_code(old(self)@, InsView::M(3)),
    {
        self.current_block.push(GcodeInstruction::M(3));
    }

    /// Laser on with power proportional to motion speed.
    pub fn laser_on_dyn(&mut self)
        ensures
            final(self)@ == Self::with_code(old(self)@, InsView::M(4)),
    {
        self.current_block.push(GcodeInstruction::M(4));
    }

    /// Laser off.
    pub fn laser_off(&mut self)
        ensures
            final(self)@ == Self::with_code(old(self)@, InsView::M(5)),
    {
        self.current_block.push(GcodeInstruction::M(5));
    }

    /// Rapid (non-cutting) positioning motion.
    pub fn rapid_motion(&mut self)
        ensures
            final(self)@ == Self::with_code(old(self)@, InsView::G(0)),
    {
        self.current_block.push(GcodeInstruction::G(0));
    }

    /// Cutting motion.
    pub fn cutting_motion(&mut self)
        ensures
            final(self)@ == Self::with_code(old(self)@, InsView::G(1)),
    {
        self.current_block.push(GcodeInstruction::G(1));
    }

    /// A user-authored text fragment, inserted verbatim.
    pub fn custom(&mut self, s: String)
        ensures
            final(self)@ == Self::with_code(old(self)@, InsView::Custom(s@)),
    {
        self.current_block.push(GcodeInstruction::Custom(s));
    }

    /// Add comment text to the accumulating block.
    pub fn comment(&mut self, text: &str)
        ensures
            final(self)@.blocks == old(self)@.blocks,
            final(self)@.current.codes == old(self)@.current.codes,
            final(self)@.current.comment == (match old(self)@.current.comment {
                None => Some(text@),
                Some(c) => Some(c + seq![';', ' '] + text@),
            }),
    {
        self.current_block.add_comment(text);
    }

    /// Push a finished block holding only the given comment.
    pub fn comment_block(&mut self, text: &str)
        ensures
            final(self)@.blocks == old(self)@.blocks.push(
                BlockView { codes: Seq::<InsView>::empty(), comment: Some(text@) },
            ),
            final(self)@.current == old(self)@.current,
    {
        let mut block = GcodeBlock::default();
        block.add_comment(text);
        self.inner.push(block);
        proof {
            assert(final(self)@.blocks =~= old(self)@.blocks.push(
                BlockView { codes: Seq::<InsView>::empty(), comment: Some(text@) },
            ));
        }
    }

    /// End of block: the accumulating block is finished and a fresh one
    /// starts.
    pub fn eob(&mut self)
        ensures
            final(self)@.blocks == old(self)@.blocks.push(old(self)@.current),
            final(self)@.current.codes.len() == 0,
            final(self)@.current.comment is None,
    {
        let mut block = GcodeBlock::default();
        core::mem::swap(&mut block, &mut self.current_block);
        self.inner.push(block);
        proof {
            assert(final(self)@.blocks =~= old(self)@.blocks.push(old(self)@.current));
        }
    }

    /// Serialize the document: flush the accumulating block unless it is
    /// empty, append the program-end block, and emit every block's text,
    /// one per line. Consumes the builder, so it can only happen once.
    pub fn finish(self) -> (r: String)
        ensures
            r@ == doc_str(finished_blocks(self@)),
    {
        let ghost target = finished_blocks(self@);
        let GcodeBuilder { mut inner, current_block } = self;
        if current_block.len() > 0 || current_block.comment.is_some() {
            inner.push(current_block);
        }
        let mut last_block = GcodeBlock::default();
        last_block.push(GcodeInstruction::M(30));
        inner.push(last_block);
        proof {
            assert(inner@.map_values(|b: GcodeBlock| b@) =~= target);
        }
        let mut out = String::new();
        let mut i: usize = 0;
        while i < inner.len()
            invariant
                0 <= i <= inner@.len(),
                inner@.map_values(|b: GcodeBlock| b@) =~= target,
                out@ == doc_str(target.take(i as int)),
            decreases inner@.len() - i,
        {
            proof {
                assert(target.take(i + 1 as int).drop_last() =~= target.take(i as int));
                assert(target.take(i + 1 as int).last() == target[i as int]);
            }
            let t = inner[i].text();
            out.append(t.as_str());
            proof {
                reveal_strlit("\n");
            }
            assert("\n"@ =~= seq!['\n']);
            out.append("\n");
            proof {
                assert(out@ =~= doc_str(target.take(i + 1 as int)));
            }
            i = i + 1;
        }
        proof {
            assert(target.take(target.len() as int) =~= target);
        }
        out
    }
}

} // verus!
