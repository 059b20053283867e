use vstd::prelude::*;

use crate::error::EngineError;
use crate::text::{
    contains_char, has_char, lines_of, push_char, split_lines, strings_model, trim_of, trim_str,
    trimmed_string,
};

verus! {

/// A line of a document with its 0-based number.
#[derive(Debug, Clone)]
pub struct FileLine {
    pub line_number: usize,
    pub line: String,
}

impl FileLine {
    /// The line numbered `line_number` with text `line`.
    pub fn new(line_number: usize, line: String) -> (r: FileLine)
        ensures
            r.line_number == line_number,
            r.line == line,
    {
        FileLine { line_number, line }
    }

    /// The same line with leading and trailing white space removed.
    pub fn trimmed(&self) -> (r: FileLine)
        ensures
            r.line_number == self.line_number,
            r.line@ == trim_of(self.line@),
    {
        FileLine { line_number: self.line_number, line: trimmed_string(self.line.as_str()) }
    }
}

/// What a block holds: its text, or the blocks nested in it.
#[derive(Debug)]
pub enum BlockContent {
    Text(String),
    Blocks(Vec<Bracketed>),
}

/// A brace-delimited block: its opening and closing lines and its content.
#[derive(Debug)]
pub struct Bracketed {
    pub beginning_line: FileLine,
    pub ending_line: FileLine,
    pub content: BlockContent,
}

impl Bracketed {
    /// The block between lines `beginning_line` and `ending_line` holding `content`.
    pub fn new(beginning_line: FileLine, ending_line: FileLine, content: BlockContent) -> (r: Bracketed)
        ensures
            r == (Bracketed { beginning_line, ending_line, content }),
    {
        Bracketed { beginning_line, ending_line, content }
    }
}

/// Mathematical value of a block's content.
pub enum ContentModel {
    Text(Seq<char>),
    Blocks(Seq<BlockModel>),
}

/// Mathematical value of a block.
pub struct BlockModel {
    pub open_line: int,
    pub open_text: Seq<char>,
    pub close_line: int,
    pub close_text: Seq<char>,
    pub content: ContentModel,
}

/// The model of block `b`.
pub open spec fn block_view(b: Bracketed) -> BlockModel
    decreases b,
{
    BlockModel {
        open_line: b.beginning_line.line_number as int,
        open_text: b.beginning_line.line@,
        close_line: b.ending_line.line_number as int,
        close_text: b.ending_line.line@,
        content: match b.content {
            BlockContent::Text(s) => ContentModel::Text(s@),
            BlockContent::Blocks(v) => ContentModel::Blocks(
                Seq::new(v.len() as nat, |i: int| if 0 <= i < v.len() { block_view(v[i]) } else { arbitrary() }),
            ),
        },
    }
}

/// The models of a sequence of blocks.
pub open spec fn blocks_model(v: Seq<Bracketed>) -> Seq<BlockModel> {
    v.map_values(|b: Bracketed| block_view(b))
}

proof fn lemma_blocks_model_push(v: Seq<Bracketed>, b: Bracketed)
    ensures
        blocks_model(v.push(b)) == blocks_model(v).push(block_view(b)),
{
    assert(blocks_model(v.push(b)) =~= blocks_model(v).push(block_view(b)));
}

pub proof fn lemma_block_view_blocks(b: Bracketed)
    requires
        b.content is Blocks,
    ensures
        block_view(b).content == ContentModel::Blocks(blocks_model(b.content->Blocks_0@)),
{
    let v = b.content->Blocks_0;
    let s = block_view(b).content->Blocks_0;
    assert(s.len() == v.len());
    assert forall|i: int| 0 <= i < v.len() implies s[i] == blocks_model(v@)[i] by {}
    assert(s =~= blocks_model(v@));
}

/// Whether a line opens a block: it holds `{`.
pub open spec fn opens(l: Seq<char>) -> bool {
    has_char(l, '{')
}

/// Whether a line closes a block: it holds `}` and no `{`.
pub open spec fn closes(l: Seq<char>) -> bool {
    !has_char(l, '{') && has_char(l, '}')
}

/// A block still open: its opening line and the blocks completed inside it so far.
pub type Frame = (int, Seq<BlockModel>);

/// The top-level blocks of lines `ls` from line `i` on, given the blocks
/// still open and the top-level blocks completed so far.
pub open spec fn tree_run(ls: Seq<Seq<char>>, i: int, open: Seq<Frame>, top: Seq<BlockModel>) -> Result<Seq<BlockModel>, EngineError>
    decreases ls.len() - i,
{
    if i < 0 || i >= ls.len() {
        if open.len() == 0 {
            Ok(top)
        } else {
            Err(EngineError::UnclosedBlock { line: open.last().0 as usize })
        }
    } else if opens(ls[i]) {
        tree_run(ls, i + 1, open.push((i, Seq::empty())), top)
    } else if closes(ls[i]) {
        if open.len() == 0 {
            Err(EngineError::UnmatchedClosingBrace { line: i as usize })
        } else {
            let f = open.last();
            let b = BlockModel {
                open_line: f.0,
                open_text: ls[f.0],
                close_line: i,
                close_text: ls[i],
                content: ContentModel::Blocks(f.1),
            };
            let rest = open.drop_last();
            if rest.len() == 0 {
                tree_run(ls, i + 1, rest, top.push(b))
            } else {
                tree_run(ls, i + 1, rest.drop_last().push((rest.last().0, rest.last().1.push(b))), top)
            }
        }
    } else {
        tree_run(ls, i + 1, open, top)
    }
}

/// The top-level blocks of a document with lines `ls`, in document order.
pub open spec fn block_tree(ls: Seq<Seq<char>>) -> Result<Seq<BlockModel>, EngineError> {
    tree_run(ls, 0, Seq::empty(), Seq::empty())
}

/// The opening lines of blocks `bs` and of every block nested in them,
/// each block before the blocks it holds, siblings in order.
pub open spec fn preorder(bs: Seq<BlockModel>) -> Seq<int>
    decreases bs,
{
    if bs.len() == 0 {
        Seq::empty()
    } else {
        let b = bs.last();
        preorder(bs.drop_last()) + seq![b.open_line] + match b.content {
            ContentModel::Blocks(cs) => preorder(cs),
            ContentModel::Text(_) => Seq::empty(),
        }
    }
}

/// The numbers of the lines among the first `n` of `ls` that open a block, in order.
pub open spec fn openings(ls: Seq<Seq<char>>, n: int) -> Seq<int>
    decreases n,
{
    if n <= 0 {
        Seq::empty()
    } else {
        openings(ls, n - 1) + if opens(ls[n - 1]) { seq![n - 1] } else { Seq::empty() }
    }
}

/// The opening lines of the blocks still open, each followed by those of the
/// blocks completed inside it.
pub open spec fn frames_flat(open: Seq<Frame>) -> Seq<int>
    decreases open.len(),
{
    if open.len() == 0 {
        Seq::empty()
    } else {
        frames_flat(open.drop_last()) + seq![open.last().0] + preorder(open.last().1)
    }
}

proof fn lemma_preorder_push(bs: Seq<BlockModel>, b: BlockModel)
    requires
        b.content is Blocks,
    ensures
        preorder(bs.push(b)) == preorder(bs) + seq![b.open_line] + preorder(b.content->Blocks_0),
{
    assert(bs.push(b).drop_last() =~= bs);
}

proof fn lemma_tree_run_preorder(ls: Seq<Seq<char>>, i: int, open: Seq<Frame>, top: Seq<BlockModel>)
    requires
        0 <= i <= ls.len(),
        preorder(top) + frames_flat(open) == openings(ls, i),
    ensures
        tree_run(ls, i, open, top) is Ok ==> preorder(tree_run(ls, i, open, top)->Ok_0) == openings(ls, ls.len() as int),
    decreases ls.len() - i,
{
    if i < ls.len() {
        if opens(ls[i]) {
            let open2 = open.push((i, Seq::empty()));
            assert(open2.drop_last() =~= open);
            assert(preorder(Seq::empty()) =~= Seq::<int>::empty());
            assert(preorder(top) + frames_flat(open2) =~= openings(ls, i + 1));
            lemma_tree_run_preorder(ls, i + 1, open2, top);
        } else if closes(ls[i]) {
            assert(openings(ls, i + 1) =~= openings(ls, i));
            if open.len() > 0 {
                let f = open.last();
                let b = BlockModel {
                    open_line: f.0,
                    open_text: ls[f.0],
                    close_line: i,
                    close_text: ls[i],
                    content: ContentModel::Blocks(f.1),
                };
                let rest = open.drop_last();
                if rest.len() == 0 {
                    lemma_preorder_push(top, b);
                    assert(frames_flat(rest) =~= Seq::<int>::empty());
                    assert(preorder(top.push(b)) + frames_flat(rest) =~= openings(ls, i + 1));
                    lemma_tree_run_preorder(ls, i + 1, rest, top.push(b));
                } else {
                    let r = rest.last();
                    let open2 = rest.drop_last().push((r.0, r.1.push(b)));
                    assert(open2.drop_last() =~= rest.drop_last());
                    lemma_preorder_push(r.1, b);
                    let ff = frames_flat(rest.drop_last());
                    assert(open2.last() == (r.0, r.1.push(b)));
                    assert(frames_flat(open2) == ff + seq![r.0] + preorder(r.1.push(b)));
                    assert(frames_flat(rest) == ff + seq![r.0] + preorder(r.1));
                    assert(frames_flat(open) == frames_flat(rest) + seq![f.0] + preorder(f.1));
                    assert(frames_flat(open2) =~= frames_flat(open));
                    assert(preorder(top) + frames_flat(open2) =~= openings(ls, i + 1));
                    lemma_tree_run_preorder(ls, i + 1, open2, top);
                }
            }
        } else {
            assert(openings(ls, i + 1) =~= openings(ls, i));
            lemma_tree_run_preorder(ls, i + 1, open, top);
        }
    } else {
        assert(frames_flat(open) =~= Seq::<int>::empty() || open.len() > 0);
        assert(preorder(top) + Seq::<int>::empty() =~= preorder(top));
    }
}

/// Building the block tree loses, adds and reorders nothing: listing every
/// block of the tree, each before the blocks nested in it and siblings in
/// order, gives exactly the document's lines that open a block, in document
/// order. The top-level blocks thus come in the order they were opened.
pub proof fn law_block_tree_round_trip(doc: Seq<char>)
    ensures
        block_tree(lines_of(doc)) is Ok ==> preorder(block_tree(lines_of(doc))->Ok_0) == openings(
            lines_of(doc),
            lines_of(doc).len() as int,
        ),
{
    let ls = lines_of(doc);
    assert(preorder(Seq::empty()) + frames_flat(Seq::empty()) =~= openings(ls, 0));
    lemma_tree_run_preorder(ls, 0, Seq::empty(), Seq::empty());
}

/// The nesting depth after the first `n` lines of `ls`: how many of them
/// open a block, less how many close one.
pub open spec fn depth(ls: Seq<Seq<char>>, n: int) -> int
    decreases n,
{
    if n <= 0 {
        0
    } else {
        depth(ls, n - 1) + if opens(ls[n - 1]) {
            1int
        } else if closes(ls[n - 1]) {
            -1int
        } else {
            0int
        }
    }
}

/// Whether the braces of lines `ls` balance: no line closes a block when
/// none is open, and no block is left open at the end.
pub open spec fn balanced(ls: Seq<Seq<char>>) -> bool {
    &&& forall|n: int| 0 <= n <= ls.len() ==> depth(ls, n) >= 0
    &&& depth(ls, ls.len() as int) == 0
}

/// The numbers of the lines among the first `n` of `ls` that open a block
/// at depth zero, in order.
pub open spec fn outer_openings(ls: Seq<Seq<char>>, n: int) -> Seq<int>
    decreases n,
{
    if n <= 0 {
        Seq::empty()
    } else {
        outer_openings(ls, n - 1) + if opens(ls[n - 1]) && depth(ls, n - 1) == 0 {
            seq![n - 1]
        } else {
            Seq::empty()
        }
    }
}

/// The opening lines of blocks `bs`, in order.
pub open spec fn opening_lines(bs: Seq<BlockModel>) -> Seq<int> {
    bs.map_values(|b: BlockModel| b.open_line)
}

/// The opening line of the outermost block still open, if any.
pub open spec fn outermost(open: Seq<Frame>) -> Seq<int> {
    if open.len() > 0 {
        seq![open[0].0]
    } else {
        Seq::empty()
    }
}

proof fn lemma_tree_run_balance(ls: Seq<Seq<char>>, i: int, open: Seq<Frame>, top: Seq<BlockModel>)
    requires
        0 <= i <= ls.len(),
        open.len() == depth(ls, i),
        forall|n: int| 0 <= n <= i ==> depth(ls, n) >= 0,
        opening_lines(top) + outermost(open) == outer_openings(ls, i),
    ensures
        tree_run(ls, i, open, top) is Ok <==> balanced(ls),
        tree_run(ls, i, open, top) is Ok ==> opening_lines(tree_run(ls, i, open, top)->Ok_0) == outer_openings(
            ls,
            ls.len() as int,
        ),
    decreases ls.len() - i,
{
    if i < ls.len() {
        assert(outer_openings(ls, i + 1) == outer_openings(ls, i) + if opens(ls[i]) && depth(ls, i) == 0 {
            seq![i]
        } else {
            Seq::<int>::empty()
        });
        if opens(ls[i]) {
            let open2 = open.push((i, Seq::empty()));
            if open.len() == 0 {
                assert(opening_lines(top) + outermost(open2) =~= outer_openings(ls, i + 1));
            } else {
                assert(outermost(open2) == outermost(open));
                assert(opening_lines(top) + outermost(open2) =~= outer_openings(ls, i + 1));
            }
            lemma_tree_run_balance(ls, i + 1, open2, top);
        } else if closes(ls[i]) {
            if open.len() == 0 {
                assert(depth(ls, i + 1) < 0);
            } else {
                let f = open.last();
                let b = BlockModel {
                    open_line: f.0,
                    open_text: ls[f.0],
                    close_line: i,
                    close_text: ls[i],
                    content: ContentModel::Blocks(f.1),
                };
                let rest = open.drop_last();
                assert(outer_openings(ls, i + 1) =~= outer_openings(ls, i));
                if rest.len() == 0 {
                    assert(opening_lines(top.push(b)) =~= opening_lines(top).push(b.open_line));
                    assert(opening_lines(top.push(b)) + outermost(rest) =~= outer_openings(ls, i + 1));
                    lemma_tree_run_balance(ls, i + 1, rest, top.push(b));
                } else {
                    let r = rest.last();
                    let open2 = rest.drop_last().push((r.0, r.1.push(b)));
                    assert(open2[0].0 == open[0].0);
                    assert(outermost(open2) == outermost(open));
                    lemma_tree_run_balance(ls, i + 1, open2, top);
                }
            }
        } else {
            assert(outer_openings(ls, i + 1) =~= outer_openings(ls, i));
            lemma_tree_run_balance(ls, i + 1, open, top);
        }
    } else {
        if open.len() == 0 {
            assert(opening_lines(top) + outermost(open) =~= opening_lines(top));
        }
    }
}

/// A document parses exactly when its braces balance; its top-level blocks
/// are then the blocks opened at depth zero, one for each such line, in
/// document order.
pub proof fn law_balanced_documents_parse(doc: Seq<char>)
    ensures
        block_tree(lines_of(doc)) is Ok <==> balanced(lines_of(doc)),
        block_tree(lines_of(doc)) is Ok ==> opening_lines(block_tree(lines_of(doc))->Ok_0) == outer_openings(
            lines_of(doc),
            lines_of(doc).len() as int,
        ),
{
    let ls = lines_of(doc);
    assert(opening_lines(Seq::empty()) + outermost(Seq::empty()) =~= outer_openings(ls, 0));
    assert forall|n: int| 0 <= n <= 0 implies depth(ls, n) >= 0 by {}
    lemma_tree_run_balance(ls, 0, Seq::empty(), Seq::empty());
}

/// Whether block `b` opens before it closes, and the blocks nested in it,
/// themselves well nested, lie strictly between its two lines, each closing
/// before the next one opens.
pub open spec fn well_nested(b: BlockModel) -> bool
    decreases b,
{
    &&& b.open_line < b.close_line
    &&& match b.content {
        ContentModel::Blocks(cs) => {
            &&& forall|k: int|
                0 <= k < cs.len() ==> b.open_line < (#[trigger] cs[k]).open_line && cs[k].close_line < b.close_line
                    && well_nested(cs[k])
            &&& forall|k: int| 0 <= k < cs.len() - 1 ==> (#[trigger] cs[k]).close_line < cs[k + 1].open_line
        },
        ContentModel::Text(_) => true,
    }
}

/// Whether blocks `bs` are well nested, lie strictly between lines `lo` and
/// `hi`, and each closes before the next one opens.
pub open spec fn ordered_within(bs: Seq<BlockModel>, lo: int, hi: int) -> bool {
    &&& forall|k: int|
        0 <= k < bs.len() ==> lo < (#[trigger] bs[k]).open_line && bs[k].close_line < hi && well_nested(bs[k])
    &&& forall|k: int| 0 <= k < bs.len() - 1 ==> (#[trigger] bs[k]).close_line < bs[k + 1].open_line
}

/// The line before which the blocks held by the `j`-th open block close.
pub open spec fn frame_bound(open: Seq<Frame>, j: int, i: int) -> int {
    if j + 1 < open.len() {
        open[j + 1].0
    } else {
        i
    }
}

/// The shape that the blocks still open and those completed keep while the
/// lines before line `i` are read.
#[verifier::opaque]
pub open spec fn frames_ordered(open: Seq<Frame>, top: Seq<BlockModel>, i: int) -> bool {
    &&& forall|j: int| 0 <= j < open.len() ==> 0 <= (#[trigger] open[j]).0 < i
    &&& forall|j: int| 0 <= j < open.len() - 1 ==> (#[trigger] open[j]).0 < open[j + 1].0
    &&& forall|j: int| 0 <= j < open.len() ==> ordered_within((#[trigger] open[j]).1, open[j].0, frame_bound(open, j, i))
    &&& ordered_within(top, -1, if open.len() > 0 { open[0].0 } else { i })
}

proof fn lemma_ordered_push(bs: Seq<BlockModel>, b: BlockModel, lo: int, hi: int, hi2: int)
    requires
        ordered_within(bs, lo, b.open_line),
        lo < b.open_line,
        b.close_line < hi2,
        well_nested(b),
    ensures
        ordered_within(bs.push(b), lo, hi2),
{
    let bs2 = bs.push(b);
    assert forall|k: int| 0 <= k < bs2.len() implies lo < (#[trigger] bs2[k]).open_line && bs2[k].close_line < hi2
        && well_nested(bs2[k]) by {
        if k < bs.len() {
            assert(bs2[k] == bs[k]);
        }
    }
    assert forall|k: int| 0 <= k < bs2.len() - 1 implies (#[trigger] bs2[k]).close_line < bs2[k + 1].open_line by {
        assert(bs2[k] == bs[k]);
        if k + 1 < bs.len() {
            assert(bs2[k + 1] == bs[k + 1]);
        }
    }
}

proof fn lemma_open_step(open: Seq<Frame>, top: Seq<BlockModel>, i: int)
    requires
        0 <= i,
        frames_ordered(open, top, i),
    ensures
        frames_ordered(open.push((i, Seq::empty())), top, i + 1),
{
    reveal(frames_ordered);
    let open2 = open.push((i, Seq::empty()));
    assert forall|j: int| 0 <= j < open2.len() implies ordered_within(
        (#[trigger] open2[j]).1,
        open2[j].0,
        frame_bound(open2, j, i + 1),
    ) by {
        if j < open.len() {
            assert(open2[j] == open[j]);
            assert(frame_bound(open2, j, i + 1) == frame_bound(open, j, i));
        }
    }
    assert forall|j: int| 0 <= j < open2.len() - 1 implies (#[trigger] open2[j]).0 < open2[j + 1].0 by {
        assert(open2[j] == open[j]);
    }
    assert forall|j: int| 0 <= j < open2.len() implies 0 <= (#[trigger] open2[j]).0 < i + 1 by {
        if j < open.len() {
            assert(open2[j] == open[j]);
        }
    }
}

proof fn lemma_plain_step(open: Seq<Frame>, top: Seq<BlockModel>, i: int)
    requires
        frames_ordered(open, top, i),
    ensures
        frames_ordered(open, top, i + 1),
{
    reveal(frames_ordered);
    assert forall|j: int| 0 <= j < open.len() implies ordered_within(
        (#[trigger] open[j]).1,
        open[j].0,
        frame_bound(open, j, i + 1),
    ) by {
        assert(ordered_within(open[j].1, open[j].0, frame_bound(open, j, i)));
    }
}

proof fn lemma_close_outer(open: Seq<Frame>, top: Seq<BlockModel>, i: int, b: BlockModel)
    requires
        frames_ordered(open, top, i),
        open.len() == 1,
        b.open_line == open[0].0,
        b.close_line == i,
        b.content == ContentModel::Blocks(open[0].1),
    ensures
        frames_ordered(Seq::empty(), top.push(b), i + 1),
{
    reveal(frames_ordered);
    assert(0 <= open[0].0);
    assert(ordered_within(open[0].1, open[0].0, frame_bound(open, 0, i)));
    assert(well_nested(b));
    lemma_ordered_push(top, b, -1, i, i + 1);
}

#[verifier::rlimit(80)]
proof fn lemma_close_inner(open: Seq<Frame>, top: Seq<BlockModel>, i: int, b: BlockModel)
    requires
        frames_ordered(open, top, i),
        open.len() >= 2,
        b.open_line == open.last().0,
        b.close_line == i,
        b.content == ContentModel::Blocks(open.last().1),
    ensures
        ({
            let rest = open.drop_last();
            let r = rest.last();
            frames_ordered(rest.drop_last().push((r.0, r.1.push(b))), top, i + 1)
        }),
{
    reveal(frames_ordered);
    let rest = open.drop_last();
    let n = rest.len() - 1;
    let r = rest.last();
    let f = open.last();
    let open2 = rest.drop_last().push((r.0, r.1.push(b)));
    assert(open[n] == r);
    assert(open[n + 1] == f);
    assert(ordered_within(f.1, f.0, frame_bound(open, n + 1, i)));
    assert(well_nested(b));
    assert(ordered_within(r.1, r.0, frame_bound(open, n, i)));
    assert(r.0 < f.0);
    lemma_ordered_push(r.1, b, r.0, f.0, i + 1);
    assert forall|j: int| 0 <= j < open2.len() implies ordered_within(
        (#[trigger] open2[j]).1,
        open2[j].0,
        frame_bound(open2, j, i + 1),
    ) by {
        if j < n {
            assert(open2[j] == open[j]);
            assert(frame_bound(open2, j, i + 1) == frame_bound(open, j, i));
        }
    }
    assert forall|j: int| 0 <= j < open2.len() - 1 implies (#[trigger] open2[j]).0 < open2[j + 1].0 by {
        assert(open2[j] == open[j]);
        if j + 1 < n {
            assert(open2[j + 1] == open[j + 1]);
        }
    }
    assert forall|j: int| 0 <= j < open2.len() implies 0 <= (#[trigger] open2[j]).0 < i + 1 by {
        if j < n {
            assert(open2[j] == open[j]);
        }
    }
    assert(open2[0].0 == open[0].0);
}

proof fn lemma_tree_run_nested(ls: Seq<Seq<char>>, i: int, open: Seq<Frame>, top: Seq<BlockModel>)
    requires
        0 <= i <= ls.len(),
        frames_ordered(open, top, i),
    ensures
        tree_run(ls, i, open, top) is Ok ==> ordered_within(tree_run(ls, i, open, top)->Ok_0, -1, ls.len() as int),
    decreases ls.len() - i,
{
    if i < ls.len() {
        if opens(ls[i]) {
            lemma_open_step(open, top, i);
            lemma_tree_run_nested(ls, i + 1, open.push((i, Seq::empty())), top);
        } else if closes(ls[i]) {
            if open.len() > 0 {
                let f = open.last();
                let b = BlockModel {
                    open_line: f.0,
                    open_text: ls[f.0],
                    close_line: i,
                    close_text: ls[i],
                    content: ContentModel::Blocks(f.1),
                };
                let rest = open.drop_last();
                if rest.len() == 0 {
                    lemma_close_outer(open, top, i, b);
                    assert(rest =~= Seq::<Frame>::empty());
                    lemma_tree_run_nested(ls, i + 1, rest, top.push(b));
                } else {
                    let r = rest.last();
                    lemma_close_inner(open, top, i, b);
                    lemma_tree_run_nested(ls, i + 1, rest.drop_last().push((r.0, r.1.push(b))), top);
                }
            }
        } else {
            lemma_plain_step(open, top, i);
            lemma_tree_run_nested(ls, i + 1, open, top);
        }
    } else {
        reveal(frames_ordered);
    }
}

/// Every block of a parsed document opens before it closes and lies within
/// the document; blocks nested in a block lie strictly between its two
/// lines; and blocks side by side, at the top level or in one block, each
/// close before the next one opens.
pub proof fn law_blocks_nest(doc: Seq<char>)
    ensures
        block_tree(lines_of(doc)) is Ok ==> ordered_within(
            block_tree(lines_of(doc))->Ok_0,
            -1,
            lines_of(doc).len() as int,
        ),
{
    reveal(frames_ordered);
    lemma_tree_run_nested(lines_of(doc), 0, Seq::empty(), Seq::empty());
}

/// The models of the open blocks.
pub open spec fn frames_model(v: Seq<(usize, Vec<Bracketed>)>) -> Seq<Frame> {
    v.map_values(|f: (usize, Vec<Bracketed>)| (f.0 as int, blocks_model(f.1@)))
}

/// The model of a parse result.
pub open spec fn blocks_result(r: Result<Vec<Bracketed>, EngineError>) -> Result<Seq<BlockModel>, EngineError> {
    match r {
        Ok(v) => Ok(blocks_model(v@)),
        Err(e) => Err(e),
    }
}

/// The top-level blocks of `file`, each holding the blocks nested in it, in
/// document order.
pub fn parse_bracketed(file: &str) -> (r: Result<Vec<Bracketed>, EngineError>)
    ensures
        blocks_result(r) == block_tree(lines_of(file@)),
{
    let lines = split_lines(file);
    let ghost ls = strings_model(lines@);
    let mut open: Vec<(usize, Vec<Bracketed>)> = Vec::new();
    let mut top: Vec<Bracketed> = Vec::new();
    let mut i: usize = 0;
    assert(frames_model(open@) =~= Seq::<Frame>::empty());
    assert(blocks_model(top@) =~= Seq::<BlockModel>::empty());
    while i < lines.len()
        invariant
            i <= lines.len(),
            ls == strings_model(lines@),
            ls == lines_of(file@),
            forall|k: int| 0 <= k < open.len() ==> #[trigger] open@[k].0 < i,
            block_tree(ls) == tree_run(ls, i as int, frames_model(open@), blocks_model(top@)),
        decreases lines.len() - i,
    {
        assert(ls[i as int] == lines@[i as int]@);
        if contains_char(&lines[i], '{') {
            let ghost before = frames_model(open@);
            let fresh: Vec<Bracketed> = Vec::new();
            assert(blocks_model(fresh@) =~= Seq::<BlockModel>::empty());
            open.push((i, fresh));
            assert(frames_model(open@) =~= before.push((i as int, Seq::empty())));
        } else if contains_char(&lines[i], '}') {
            if open.len() == 0 {
                return Err(EngineError::UnmatchedClosingBrace { line: i });
            }
            let ghost before = frames_model(open@);
            let (o, children) = open.pop().unwrap();
            assert(frames_model(open@) =~= before.drop_last());
            assert(ls[o as int] == lines@[o as int]@);
            let b = Bracketed::new(
                FileLine::new(o, lines[o].clone()),
                FileLine::new(i, lines[i].clone()),
                BlockContent::Blocks(children),
            );
            proof {
                lemma_block_view_blocks(b);
            }
            if open.len() == 0 {
                proof {
                    lemma_blocks_model_push(top@, b);
                }
                top.push(b);
            } else {
                let ghost rest = frames_model(open@);
                let (p, siblings) = open.pop().unwrap();
                let mut siblings = siblings;
                proof {
                    lemma_blocks_model_push(siblings@, b);
                }
                siblings.push(b);
                open.push((p, siblings));
                assert(frames_model(open@) =~= rest.drop_last().push((rest.last().0, rest.last().1.push(block_view(b)))));
            }
        }
        i += 1;
    }
    if open.len() > 0 {
        return Err(EngineError::UnclosedBlock { line: open[open.len() - 1].0 });
    }
    Ok(top)
}

/// The lines strictly between lines `o` and `c`, as far as `ls` goes.
pub open spec fn interior(ls: Seq<Seq<char>>, o: int, c: int) -> Seq<Seq<char>> {
    let lo = if o + 1 < ls.len() { o + 1 } else { ls.len() as int };
    let hi = if c < ls.len() { c } else { ls.len() as int };
    if lo < hi {
        ls.subrange(lo, hi)
    } else {
        Seq::empty()
    }
}

/// Each line trimmed and followed by a line feed, one after the other.
pub open spec fn joined_trimmed(ls: Seq<Seq<char>>) -> Seq<char>
    decreases ls.len(),
{
    if ls.len() == 0 {
        Seq::empty()
    } else {
        joined_trimmed(ls.drop_last()) + trim_of(ls.last()) + seq!['\n']
    }
}

/// Block `b` with its delimiter lines trimmed and each innermost block given
/// the text of the lines `ls` strictly inside it.
pub open spec fn filled(b: BlockModel, ls: Seq<Seq<char>>) -> BlockModel
    decreases b,
{
    let text = ContentModel::Text(joined_trimmed(interior(ls, b.open_line, b.close_line)));
    BlockModel {
        open_line: b.open_line,
        open_text: trim_of(b.open_text),
        close_line: b.close_line,
        close_text: trim_of(b.close_text),
        content: match b.content {
            ContentModel::Text(_) => text,
            ContentModel::Blocks(cs) => if cs.len() == 0 {
                text
            } else {
                ContentModel::Blocks(
                    Seq::new(cs.len(), |i: int| if 0 <= i < cs.len() { filled(cs[i], ls) } else { arbitrary() }),
                )
            },
        },
    }
}

/// The trimmed lines strictly between lines `o` and `c`, each followed by a line feed.
fn interior_text(lines: &Vec<String>, o: usize, c: usize) -> (r: String)
    ensures
        r@ == joined_trimmed(interior(strings_model(lines@), o as int, c as int)),
{
    let ghost ls = strings_model(lines@);
    let lo: usize = if o < lines.len() { o + 1 } else { lines.len() };
    let hi: usize = if c < lines.len() { c } else { lines.len() };
    let mut out = String::new();
    if lo >= hi {
        return out;
    }
    let mut k: usize = lo;
    assert(ls.subrange(lo as int, lo as int) =~= Seq::<Seq<char>>::empty());
    while k < hi
        invariant
            lo <= k <= hi <= lines.len(),
            ls == strings_model(lines@),
            out@ == joined_trimmed(ls.subrange(lo as int, k as int)),
        decreases hi - k,
    {
        assert(ls.subrange(lo as int, k + 1).drop_last() =~= ls.subrange(lo as int, k as int));
        assert(ls[k as int] == lines@[k as int]@);
        out.append(trim_str(lines[k].as_str()));
        push_char(&mut out, '\n');
        k += 1;
    }
    assert(interior(ls, o as int, c as int) == ls.subrange(lo as int, hi as int));
    out
}

/// `b` filled from the lines `lines` of its document.
fn fill_from(b: &Bracketed, lines: &Vec<String>) -> (r: Bracketed)
    ensures
        block_view(r) == filled(block_view(*b), strings_model(lines@)),
    decreases b,
{
    let beginning_line = b.beginning_line.trimmed();
    let ending_line = b.ending_line.trimmed();
    let ghost m = block_view(*b);
    let ghost ls = strings_model(lines@);
    match &b.content {
        BlockContent::Blocks(v) if v.len() > 0 => {
            proof {
                lemma_block_view_blocks(*b);
            }
            let mut out: Vec<Bracketed> = Vec::new();
            let mut i: usize = 0;
            while i < v.len()
                invariant
                    i <= v.len(),
                    out.len() == i,
                    b.content == BlockContent::Blocks(*v),
                    m == block_view(*b),
                    ls == strings_model(lines@),
                    m.content == ContentModel::Blocks(blocks_model(v@)),
                    forall|k: int| 0 <= k < i ==> #[trigger] block_view(out@[k]) == filled(block_view(v@[k]), ls),
                decreases v.len() - i,
            {
                proof {
                    assert(decreases_to!(*b => v[i as int]));
                }
                let f = fill_from(&v[i], lines);
                let ghost prev = out@;
                out.push(f);
                assert forall|k: int| 0 <= k < i + 1 implies #[trigger] block_view(out@[k]) == filled(
                    block_view(v@[k]),
                    ls,
                ) by {
                    if k < i {
                        assert(out@[k] == prev[k]);
                    }
                }
                i += 1;
            }
            let r = Bracketed::new(beginning_line, ending_line, BlockContent::Blocks(out));
            proof {
                lemma_block_view_blocks(r);
                let fc = filled(m, ls).content->Blocks_0;
                assert(fc.len() == v.len());
                assert forall|k: int| 0 <= k < v.len() implies fc[k] == blocks_model(out@)[k] by {
                    assert(blocks_model(v@)[k] == block_view(v@[k]));
                }
                assert(blocks_model(out@) =~= fc);
            }
            r
        },
        _ => {
            let text = interior_text(lines, b.beginning_line.line_number, b.ending_line.line_number);
            proof {
                if b.content is Blocks {
                    lemma_block_view_blocks(*b);
                }
            }
            Bracketed::new(beginning_line, ending_line, BlockContent::Text(text))
        },
    }
}

/// Block `bracketed` of document `text`, with its delimiter lines trimmed and
/// each innermost block holding the trimmed lines strictly inside it, each
/// followed by a line feed.
pub fn fill_blanks(bracketed: &Bracketed, text: &str) -> (r: Bracketed)
    ensures
        block_view(r) == filled(block_view(*bracketed), lines_of(text@)),
{
    let lines = split_lines(text);
    fill_from(bracketed, &lines)
}

} // verus!
