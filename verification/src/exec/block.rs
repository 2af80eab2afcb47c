//! Putting a marker block into the text of a destination file.
use vstd::prelude::*;

use crate::error::{MoiError, MoiErrorView};
use crate::lines::{
    count_matches, first_match, line_matches, lemma_count_first_concat, lemma_newlines_keep_matches,
    lemma_split_flatten, lemma_split_lines_concat, lemma_split_lines_shape, lemma_split_single_line,
    lemma_trim_no_newline, lemma_trim_push_newline, split_lines, well_formed_lines,
};
use crate::model::block::{
    block_body, block_end_line, block_start_line, block_text, Block, BlockView,
};
use crate::model::module::Module;
use crate::model::platform_filter::filter_label;
use crate::path::{expand_home_spec, join};
use crate::text::{ends_with, newlines, opt_str_view};

verus! {

/// How many newlines are added after non-empty text so that it ends with
/// three newlines (an empty line before the appended block).
pub open spec fn padding_count(e: Seq<char>) -> nat {
    if e.len() == 0 {
        0
    } else if ends_with(e, newlines(3)) {
        0
    } else if ends_with(e, newlines(2)) {
        1
    } else if ends_with(e, newlines(1)) {
        2
    } else {
        3
    }
}

/// The existing text followed by the newlines that separate it from an
/// appended block.
pub open spec fn padded(e: Seq<char>) -> Seq<char> {
    e + newlines(padding_count(e))
}

/// What `replace_or_append` returns: the text with the block for `marker`
/// set to `content`, or the error when the existing markers are broken.
pub open spec fn replace_or_append_spec(existing: Seq<char>, marker: Seq<char>, content: Seq<char>) -> Result<
    Seq<char>,
    MoiErrorView,
> {
    let lines = split_lines(existing);
    let sl = block_start_line(marker);
    let el = block_end_line(marker);
    let ns = count_matches(lines, sl);
    let ne = count_matches(lines, el);
    if ns != ne {
        Err(MoiErrorView::Config("marker block is unbalanced: "@ + marker))
    } else if ns > 1 {
        Err(MoiErrorView::Config("marker block appears multiple times: "@ + marker))
    } else if ns == 0 {
        Ok(padded(existing) + block_text(marker, content))
    } else {
        let s = first_match(lines, sl)->0;
        let e = first_match(lines, el)->0;
        if s > e {
            Err(MoiErrorView::Config("marker block is invalid: "@ + marker))
        } else {
            Ok(
                lines.subrange(0, s).flatten() + block_text(marker, content) + lines.subrange(
                    e + 1,
                    lines.len() as int,
                ).flatten(),
            )
        }
    }
}

/// A line matches exactly when some line is counted.
pub proof fn lemma_count_first(lines: Seq<Seq<char>>, target: Seq<char>)
    ensures
        (count_matches(lines, target) > 0) == (first_match(lines, target) is Some),
        first_match(lines, target) matches Some(k) ==> 0 <= k < lines.len(),
    decreases lines.len(),
{
    if lines.len() > 0 {
        lemma_count_first(lines.drop_last(), target);
    }
}

fn padding(existing: &Vec<char>) -> (n: usize)
    ensures
        n as nat == padding_count(existing@),
{
    let len = existing.len();
    if len == 0 {
        return 0;
    }
    let e1 = existing[len - 1] == '\n';
    let e2 = e1 && len >= 2 && existing[len - 2] == '\n';
    let e3 = e2 && len >= 3 && existing[len - 3] == '\n';
    proof {
        let e = existing@;
        assert(e1 == ends_with(e, newlines(1))) by {
            if e1 {
                assert(e.skip(e.len() - 1) =~= newlines(1));
            }
            if ends_with(e, newlines(1)) {
                assert(e.skip(e.len() - 1)[0] == e[e.len() - 1]);
            }
        }
        assert(e2 == ends_with(e, newlines(2))) by {
            if e2 {
                assert(e.skip(e.len() - 2) =~= newlines(2));
            }
            if ends_with(e, newlines(2)) {
                assert(e.skip(e.len() - 2)[0] == e[e.len() - 2]);
                assert(e.skip(e.len() - 2)[1] == e[e.len() - 1]);
            }
        }
        assert(e3 == ends_with(e, newlines(3))) by {
            if e3 {
                assert(e.skip(e.len() - 3) =~= newlines(3));
            }
            if ends_with(e, newlines(3)) {
                assert(e.skip(e.len() - 3)[0] == e[e.len() - 3]);
                assert(e.skip(e.len() - 3)[1] == e[e.len() - 2]);
                assert(e.skip(e.len() - 3)[2] == e[e.len() - 1]);
            }
        }
    }
    if e3 {
        0
    } else if e2 {
        1
    } else if e1 {
        2
    } else {
        3
    }
}

/// Replaces the lines from the block's opening line to its closing line by
/// the new block, or appends the block after an empty line when the text has
/// none. Unbalanced, repeated or reversed markers are an error.
pub fn replace_or_append(existing: &str, marker: &str, content: &str) -> (r: Result<
    String,
    MoiError,
>)
    ensures
        crate::error::string_result(r) == replace_or_append_spec(existing@, marker@, content@),
{
    let start_line = Block::start_line(marker);
    let end_line = Block::end_line(marker);
    let ev = crate::text::chars_of(existing);
    let lines = crate::lines::split_lines_inclusive(&ev);
    let start_chars = crate::text::chars_of(start_line.as_str());
    let end_chars = crate::text::chars_of(end_line.as_str());
    let (ns, fs) = crate::lines::count_and_first(&lines, &start_chars);
    let (ne, fe) = crate::lines::count_and_first(&lines, &end_chars);
    if ns != ne {
        return Err(MoiError::config(crate::text::concat("marker block is unbalanced: ", marker)));
    }
    if ns > 1 {
        return Err(
            MoiError::config(crate::text::concat("marker block appears multiple times: ", marker)),
        );
    }
    let replacement = Block::text(marker, content);
    if ns == 0 {
        let n = padding(&ev);
        let mut prefix = crate::text::owned(existing);
        let ghost base = prefix@;
        let mut k: usize = 0;
        while k < n
            invariant
                k <= n,
                prefix@ == base + newlines(k as nat),
            decreases n - k,
        {
            prefix.push('\n');
            k += 1;
            assert(prefix@ =~= base + newlines(k as nat));
        }
        prefix.push_str(replacement.as_str());
        return Ok(prefix);
    }
    proof {
        lemma_count_first(split_lines(existing@), start_line@);
        lemma_count_first(split_lines(existing@), end_line@);
    }
    let start = fs.unwrap();
    let end = fe.unwrap();
    if start > end {
        return Err(MoiError::config(crate::text::concat("marker block is invalid: ", marker)));
    }
    let mut out = crate::lines::concat_lines(&lines, 0, start);
    let rv = crate::text::chars_of(replacement.as_str());
    crate::text::extend_chars(&mut out, &rv);
    let tail = crate::lines::concat_lines(&lines, end + 1, lines.len());
    crate::text::extend_chars(&mut out, &tail);
    Ok(crate::text::string_of(&out))
}

/// The content holds no line that is the opening or closing line of the
/// block with this marker.
pub open spec fn content_free_of_marker_lines(marker: Seq<char>, content: Seq<char>) -> bool {
    &&& count_matches(split_lines(content), block_start_line(marker)) == 0
    &&& count_matches(split_lines(content), block_end_line(marker)) == 0
}

/// The marker lines of a marker without a newline are single, distinct,
/// non-empty lines.
proof fn lemma_marker_lines(marker: Seq<char>)
    requires
        !marker.contains('\n'),
    ensures
        block_start_line(marker).len() > 0,
        block_end_line(marker).len() > 0,
        !block_start_line(marker).contains('\n'),
        !block_end_line(marker).contains('\n'),
        block_start_line(marker).last() != '\n',
        block_end_line(marker).last() != '\n',
        block_start_line(marker) != block_end_line(marker),
{
    reveal_strlit("# >>> ");
    reveal_strlit(" >>>");
    reveal_strlit("# <<< ");
    reveal_strlit(" <<<");
    let sl = block_start_line(marker);
    let el = block_end_line(marker);
    assert(sl[2] == '>');
    assert(el[2] == '<');
    assert forall|i: int| 0 <= i < sl.len() implies sl[i] != '\n' by {
        if 6 <= i < 6 + marker.len() {
            assert(sl[i] == marker[i - 6]);
        }
    }
    assert forall|i: int| 0 <= i < el.len() implies el[i] != '\n' by {
        if 6 <= i < 6 + marker.len() {
            assert(el[i] == marker[i - 6]);
        }
    }
}

/// A marker line followed by a newline is one line that matches exactly
/// that marker line.
proof fn lemma_marker_line_split(line: Seq<char>, other: Seq<char>)
    requires
        line.len() > 0,
        !line.contains('\n'),
        line.last() != '\n',
        line != other,
    ensures
        split_lines(line.push('\n')) == seq![line.push('\n')],
        line_matches(line.push('\n'), line),
        !line_matches(line.push('\n'), other),
{
    assert forall|i: int| 0 <= i < line.push('\n').len() - 1 implies line.push('\n')[i] != '\n' by {
        assert(line.push('\n')[i] == line[i]);
    }
    lemma_split_single_line(line.push('\n'));
    lemma_trim_push_newline(line);
    lemma_trim_no_newline(line);
}

/// The lines of a block: its opening line, the content's lines, its closing
/// line; the opening line is matched once, first, and the closing line once,
/// after the content.
proof fn lemma_block_text_lines(marker: Seq<char>, content: Seq<char>)
    requires
        !marker.contains('\n'),
        content_free_of_marker_lines(marker, content),
    ensures
        split_lines(block_text(marker, content)) == seq![block_start_line(marker).push('\n')]
            + split_lines(block_body(content)) + seq![block_end_line(marker).push('\n')],
        count_matches(split_lines(block_text(marker, content)), block_start_line(marker)) == 1,
        count_matches(split_lines(block_text(marker, content)), block_end_line(marker)) == 1,
        first_match(split_lines(block_text(marker, content)), block_start_line(marker)) == Some(
            0int,
        ),
        first_match(split_lines(block_text(marker, content)), block_end_line(marker)) == Some(
            (1 + split_lines(block_body(content)).len()) as int,
        ),
        block_text(marker, content).last() == '\n',
{
    let sl = block_start_line(marker);
    let el = block_end_line(marker);
    let body = block_body(content);
    lemma_marker_lines(marker);
    lemma_marker_line_split(sl, el);
    lemma_marker_line_split(el, sl);
    let a = sl.push('\n');
    let z = el.push('\n');
    assert(block_text(marker, content) =~= a + (body + z));
    assert(body.len() == 0 || body.last() == '\n');
    lemma_split_lines_concat(a, body + z);
    lemma_split_lines_concat(body, z);
    let lb = split_lines(body);
    assert(split_lines(block_text(marker, content)) =~= seq![a] + lb + seq![z]);
    if content.len() > 0 && content.last() != '\n' {
        assert(body =~= content + crate::text::newlines(1));
        lemma_newlines_keep_matches(content, 1, sl);
        lemma_newlines_keep_matches(content, 1, el);
    }
    crate::exec::block::lemma_count_first(lb, sl);
    crate::exec::block::lemma_count_first(lb, el);
    lemma_single_line_matches(a, sl);
    lemma_single_line_matches(a, el);
    lemma_single_line_matches(z, sl);
    lemma_single_line_matches(z, el);
    lemma_count_first_concat(seq![a], lb, sl);
    lemma_count_first_concat(seq![a], lb, el);
    lemma_count_first_concat(seq![a] + lb, seq![z], sl);
    lemma_count_first_concat(seq![a] + lb, seq![z], el);
}

/// How a single line counts and is found.
proof fn lemma_single_line_matches(l: Seq<char>, t: Seq<char>)
    ensures
        count_matches(seq![l], t) == if line_matches(l, t) {
            1nat
        } else {
            0nat
        },
        first_match(seq![l], t) == if line_matches(l, t) {
            Some(0int)
        } else {
            None
        },
{
    let one = seq![l];
    assert(one.drop_last() =~= Seq::<Seq<char>>::empty());
    assert(one.last() == l);
    assert(count_matches(Seq::<Seq<char>>::empty(), t) == 0);
    assert(first_match(Seq::<Seq<char>>::empty(), t) is None);
}

/// In lines where `t` first matches at `k` and matches once in all, no line
/// before `k` and none after `j >= k` matches.
#[verifier::rlimit(40)]
proof fn lemma_single_match_split(lines: Seq<Seq<char>>, t: Seq<char>, k: int, j: int)
    requires
        first_match(lines, t) == Some(k),
        count_matches(lines, t) == 1,
        k <= j < lines.len(),
    ensures
        count_matches(lines.subrange(0, k), t) == 0,
        first_match(lines.subrange(0, k), t) is None,
        count_matches(lines.subrange(j + 1, lines.len() as int), t) == 0,
{
    lemma_count_first(lines, t);
    let pre = lines.subrange(0, k);
    let rest = lines.subrange(k, lines.len() as int);
    assert(lines =~= pre + rest);
    lemma_count_first_concat(pre, rest, t);
    lemma_count_first(pre, t);
    let head = lines.subrange(0, j + 1);
    let tail = lines.subrange(j + 1, lines.len() as int);
    assert(lines =~= head + tail);
    lemma_count_first_concat(head, tail, t);
    lemma_count_first(head, t);
    lemma_count_first(tail, t);
}

/// A line before the first match of `t` holds no match of `t` before it.
proof fn lemma_no_match_before_first(lines: Seq<Seq<char>>, t: Seq<char>, k: int, s: int)
    requires
        first_match(lines, t) == Some(k),
        0 <= s <= k,
    ensures
        count_matches(lines.subrange(0, s), t) == 0,
        first_match(lines.subrange(0, s), t) is None,
{
    let pre = lines.subrange(0, s);
    let rest = lines.subrange(s, lines.len() as int);
    lemma_count_first(lines, t);
    assert(lines =~= pre + rest);
    lemma_count_first_concat(pre, rest, t);
    lemma_count_first(pre, t);
    lemma_count_first(rest, t);
}

/// Law: setting a block a second time with the same content changes nothing,
/// and after a successful edit the text holds the block's opening and closing
/// lines exactly once each. This holds for every marker without a newline.
/// Content that itself holds one of the block's marker lines is left out: a
/// second edit finds too many markers there.
#[verifier::rlimit(60)]
pub proof fn lemma_replace_or_append_idempotent(
    existing: Seq<char>,
    marker: Seq<char>,
    content: Seq<char>,
)
    requires
        !marker.contains('\n'),
        content_free_of_marker_lines(marker, content),
        replace_or_append_spec(existing, marker, content) is Ok,
    ensures
        ({
            let r = replace_or_append_spec(existing, marker, content)->Ok_0;
            &&& replace_or_append_spec(r, marker, content) == Ok::<Seq<char>, MoiErrorView>(r)
            &&& count_matches(split_lines(r), block_start_line(marker)) == 1
            &&& count_matches(split_lines(r), block_end_line(marker)) == 1
        }),
{
    let sl = block_start_line(marker);
    let el = block_end_line(marker);
    let t = block_text(marker, content);
    let lt = split_lines(t);
    let nb = split_lines(block_body(content)).len();
    let lines = split_lines(existing);
    lemma_marker_lines(marker);
    lemma_block_text_lines(marker, content);
    lemma_split_lines_shape(existing);
    lemma_count_first(lines, sl);
    lemma_count_first(lines, el);
    let r = replace_or_append_spec(existing, marker, content)->Ok_0;
    let ns = count_matches(lines, sl);
    if ns == 0 {
        let pc = padding_count(existing);
        let p = padded(existing);
        lemma_newlines_keep_matches(existing, pc, sl);
        lemma_newlines_keep_matches(existing, pc, el);
        assert(p.len() == 0 || p.last() == '\n') by {
            if existing.len() > 0 {
                if pc == 0 {
                    assert(existing.skip(existing.len() - 3)[2] == existing.last());
                } else {
                    assert(p.last() == crate::text::newlines(pc)[pc - 1]);
                }
            }
        }
        assert(r == p + t);
        lemma_split_lines_concat(p, t);
        let lp = split_lines(p);
        lemma_split_lines_shape(p);
        lemma_count_first(lp, sl);
        lemma_count_first(lp, el);
        lemma_count_first_concat(lp, lt, sl);
        lemma_count_first_concat(lp, lt, el);
        let lr = split_lines(r);
        assert(lr == lp + lt);
        assert(lr.subrange(0, lp.len() as int) =~= lp);
        assert(lr.subrange((lp.len() + 1 + nb + 1) as int, lr.len() as int) =~= Seq::<Seq<char>>::empty());
        assert(Seq::<Seq<char>>::empty().flatten() =~= Seq::<char>::empty());
        assert(p + t + Seq::<char>::empty() =~= r);
    } else {
        let s = first_match(lines, sl)->0;
        let e = first_match(lines, el)->0;
        let pre = lines.subrange(0, s);
        let post = lines.subrange(e + 1, lines.len() as int);
        let a = pre.flatten();
        let b = post.flatten();
        assert(r == a + t + b);
        lemma_single_match_split(lines, sl, s, e);
        lemma_single_match_split(lines, el, e, e);
        lemma_no_match_before_first(lines, el, e, s);
        assert(well_formed_lines(pre)) by {
            assert forall|i: int| #![trigger pre[i]] 0 <= i < pre.len() implies {
                &&& pre[i].len() > 0
                &&& crate::lines::no_newline_before_end(pre[i])
                &&& (i < pre.len() - 1 ==> pre[i].last() == '\n')
            } by {
                assert(pre[i] == lines[i]);
            }
        }
        assert(well_formed_lines(post)) by {
            assert forall|i: int| #![trigger post[i]] 0 <= i < post.len() implies {
                &&& post[i].len() > 0
                &&& crate::lines::no_newline_before_end(post[i])
                &&& (i < post.len() - 1 ==> post[i].last() == '\n')
            } by {
                assert(post[i] == lines[i + e + 1]);
            }
        }
        lemma_split_flatten(pre);
        lemma_split_flatten(post);
        assert(a.len() == 0 || a.last() == '\n') by {
            if s > 0 {
                assert(pre.last() == lines[s - 1]);
                crate::lines::lemma_flatten_last(pre);
            } else {
                assert(pre =~= Seq::<Seq<char>>::empty());
                assert(a =~= Seq::<char>::empty());
            }
        }
        assert(a + t + b =~= a + (t + b));
        lemma_split_lines_concat(a, t + b);
        lemma_split_lines_concat(t, b);
        let lr = split_lines(r);
        assert(lr =~= pre + lt + post);
        lemma_count_first(pre, sl);
        lemma_count_first(pre, el);
        lemma_count_first(post, sl);
        lemma_count_first(post, el);
        lemma_count_first_concat(pre, lt, sl);
        lemma_count_first_concat(pre, lt, el);
        lemma_count_first_concat(pre + lt, post, sl);
        lemma_count_first_concat(pre + lt, post, el);
        assert(lr.subrange(0, s) =~= pre);
        assert(lr.subrange(s + 1 + nb + 1, lr.len() as int) =~= post);
    }
}

/// A marker block to write into a destination file.
#[derive(Debug)]
pub struct BlockOperation {
    src: String,
    dst: String,
    marker: String,
    platform_label: &'static str,
}

/// The abstract value of a [`BlockOperation`].
pub struct BlockOperationView {
    pub src: Seq<char>,
    pub dst: Seq<char>,
    pub marker: Seq<char>,
    pub label: Seq<char>,
}

impl View for BlockOperation {
    type V = BlockOperationView;

    closed spec fn view(&self) -> BlockOperationView {
        BlockOperationView {
            src: self.src@,
            dst: self.dst@,
            marker: self.marker@,
            label: self.platform_label@,
        }
    }
}

/// The error of a block source that is not a regular file.
pub open spec fn missing_block_message(module_name: Seq<char>, src: Seq<char>) -> Seq<char> {
    module_name + ": block source not found: "@ + src
}

/// What `BlockOperation::resolve` decides: the source inside the module's
/// directory must be a regular file, and the destination has `~` expanded.
pub open spec fn block_operation_spec(
    module_name: Seq<char>,
    module_dir: Seq<char>,
    block: BlockView,
    home: Option<Seq<char>>,
    source_is_file: bool,
) -> Result<BlockOperationView, MoiErrorView> {
    let src = join(module_dir, block.src);
    if !source_is_file {
        Err(MoiErrorView::Config(missing_block_message(module_name, src)))
    } else {
        match expand_home_spec(block.dst, home) {
            Err(e) => Err(e),
            Ok(dst) => Ok(
                BlockOperationView {
                    src,
                    dst,
                    marker: block.marker,
                    label: filter_label(block.platform),
                },
            ),
        }
    }
}

/// The line that describes writing the block.
pub open spec fn block_description(op: BlockOperationView) -> Seq<char> {
    "block"@ + op.label + " "@ + op.src + " -> "@ + op.dst + " marker="@ + op.marker
}

impl BlockOperation {
    /// Where the source of a `[[blocks]]` entry is: its `src` in the module's
    /// directory.
    pub fn source_path(module: &Module, block: &Block) -> (s: String)
        ensures
            s@ == join(module@.path, block@.src),
    {
        crate::path::join_path(module.path(), block.src())
    }

    /// The operation for a `[[blocks]]` entry; `source_is_file` tells whether
    /// [`BlockOperation::source_path`] is a regular file.
    pub fn resolve(module: &Module, block: &Block, home: Option<&str>, source_is_file: bool) -> (r:
        Result<BlockOperation, MoiError>)
        ensures
            match block_operation_spec(
                module@.name,
                module@.path,
                block@,
                opt_str_view(home),
                source_is_file,
            ) {
                Ok(op) => r matches Ok(x) && x@ == op,
                Err(e) => r matches Err(x) && x@ == e,
            },
    {
        let src = Self::source_path(module, block);
        if !source_is_file {
            let mut message = crate::text::concat(module.name().as_str(), ": block source not found: ");
            message.push_str(src.as_str());
            return Err(MoiError::config(message));
        }
        let dst = crate::path::expand_home(block.dst(), home)?;
        Ok(
            BlockOperation {
                src,
                dst,
                marker: crate::text::owned(block.marker()),
                platform_label: block.platform().label(),
            },
        )
    }

    /// The line that describes the operation.
    pub fn describe(&self) -> (s: String)
        ensures
            s@ == block_description(self@),
    {
        let mut s = crate::text::concat("block", self.platform_label);
        s.push_str(" ");
        s.push_str(self.src.as_str());
        s.push_str(" -> ");
        s.push_str(self.dst.as_str());
        s.push_str(" marker=");
        s.push_str(self.marker.as_str());
        s
    }

    /// The file the block's text is read from.
    pub fn src(&self) -> (s: &str)
        ensures
            s@ == self@.src,
    {
        self.src.as_str()
    }

    /// The file the block is written into.
    pub fn dst(&self) -> (s: &str)
        ensures
            s@ == self@.dst,
    {
        self.dst.as_str()
    }

    /// The new text of the destination, from its current text (empty when it
    /// does not exist) and the block's content.
    pub fn updated(&self, existing: &str, content: &str) -> (r: Result<String, MoiError>)
        ensures
            crate::error::string_result(r) == replace_or_append_spec(
                existing@,
                self@.marker,
                content@,
            ),
    {
        replace_or_append(existing, self.marker.as_str(), content)
    }
}

} // verus!
