//! Marker blocks: text that the library keeps between two marker lines of a
//! destination file.
use vstd::prelude::*;

use crate::model::platform_filter::PlatformFilter;
use crate::model::validations::{module_relative_path_spec, path_string_spec};
use crate::text::contains_seq;

verus! {

/// A `[[blocks]]` entry of a module.
#[derive(Debug)]
pub struct Block {
    src: String,
    dst: String,
    marker: String,
    platform: PlatformFilter,
}

/// The abstract value of a [`Block`].
pub struct BlockView {
    pub src: Seq<char>,
    pub dst: Seq<char>,
    pub marker: Seq<char>,
    pub platform: PlatformFilter,
}

/// The error of a marker that cannot delimit a block.
pub open spec fn invalid_marker_message() -> Seq<char> {
    "block marker must not be empty and must not contain >>> or newline"@
}

/// A marker is usable: not empty, without `>>>` and without a newline.
pub open spec fn valid_marker(marker: Seq<char>) -> bool {
    marker.len() > 0 && !contains_seq(marker, ">>>"@) && !marker.contains('\n')
}

/// What `Block::new` decides about its arguments.
pub open spec fn block_check(src: Seq<char>, dst: Seq<char>, marker: Seq<char>) -> Result<
    (),
    Seq<char>,
> {
    match module_relative_path_spec(src, "block src"@) {
        Err(e) => Err(e),
        Ok(()) => match path_string_spec(dst, "block dst"@) {
            Err(e) => Err(e),
            Ok(()) => if valid_marker(marker) {
                Ok(())
            } else {
                Err(invalid_marker_message())
            },
        },
    }
}

/// The line that opens the block with this marker.
pub open spec fn block_start_line(marker: Seq<char>) -> Seq<char> {
    "# >>> "@ + marker + " >>>"@
}

/// The line that closes the block with this marker.
pub open spec fn block_end_line(marker: Seq<char>) -> Seq<char> {
    "# <<< "@ + marker + " <<<"@
}

/// The content with a final newline added when it has text but lacks one.
pub open spec fn block_body(content: Seq<char>) -> Seq<char> {
    if content.len() > 0 && content.last() != '\n' {
        content.push('\n')
    } else {
        content
    }
}

/// The whole block: the opening line, the content, the closing line, each
/// ending with a newline.
pub open spec fn block_text(marker: Seq<char>, content: Seq<char>) -> Seq<char> {
    block_start_line(marker) + seq!['\n'] + block_body(content) + block_end_line(marker) + seq!['\n']
}

impl View for Block {
    type V = BlockView;

    closed spec fn view(&self) -> BlockView {
        BlockView {
            src: self.src@,
            dst: self.dst@,
            marker: self.marker@,
            platform: self.platform,
        }
    }
}

impl Block {
    /// A block entry, after the checks a module definition must pass: `src`
    /// relative to the module, `dst` a non-empty path without `$`, and a
    /// usable marker.
    pub fn new(src: String, dst: String, marker: String, platform: PlatformFilter) -> (r: Result<
        Block,
        String,
    >)
        ensures
            match r {
                Ok(b) => block_check(src@, dst@, marker@) == Ok::<(), Seq<char>>(()) && b@ == (
                BlockView { src: src@, dst: dst@, marker: marker@, platform }),
                Err(e) => block_check(src@, dst@, marker@) == Err::<(), Seq<char>>(e@),
            },
    {
        crate::model::validations::module_relative_path(src.as_str(), "block src")?;
        crate::model::validations::path_string(dst.as_str(), "block dst")?;
        if marker.as_str().is_empty() || crate::text::has_substring(marker.as_str(), ">>>")
            || crate::text::has_char(marker.as_str(), '\n') {
            return Err(
                crate::text::owned("block marker must not be empty and must not contain >>> or newline"),
            );
        }
        Ok(Block { src, dst, marker, platform })
    }

    /// The source file, relative to the module directory.
    pub fn src(&self) -> (s: &str)
        ensures
            s@ == self@.src,
    {
        self.src.as_str()
    }

    /// The destination file.
    pub fn dst(&self) -> (s: &str)
        ensures
            s@ == self@.dst,
    {
        self.dst.as_str()
    }

    /// The marker that names the block.
    pub fn marker(&self) -> (s: &str)
        ensures
            s@ == self@.marker,
    {
        self.marker.as_str()
    }

    /// The platforms the entry applies to.
    pub fn platform(&self) -> (f: PlatformFilter)
        ensures
            f == self@.platform,
    {
        self.platform
    }

    /// The line that opens the block with this marker.
    pub fn start_line(marker: &str) -> (s: String)
        ensures
            s@ == block_start_line(marker@),
    {
        crate::text::concat3("# >>> ", marker, " >>>")
    }

    /// The line that closes the block with this marker.
    pub fn end_line(marker: &str) -> (s: String)
        ensures
            s@ == block_end_line(marker@),
    {
        crate::text::concat3("# <<< ", marker, " <<<")
    }

    /// The whole block text for this marker and content.
    pub fn text(marker: &str, content: &str) -> (s: String)
        ensures
            s@ == block_text(marker@, content@),
    {
        let c = crate::text::chars_of(content);
        let mut out = Block::start_line(marker);
        out.push('\n');
        out.push_str(content);
        if c.len() > 0 && c[c.len() - 1] != '\n' {
            out.push('\n');
        }
        out.push_str(Block::end_line(marker).as_str());
        out.push('\n');
        out
    }
}

} // verus!
