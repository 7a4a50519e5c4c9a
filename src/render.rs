//! Rendering of a packed context as a delimited, citation-labelled block.
use vstd::prelude::*;
use crate::digits::{decimal_text, int_text};
use crate::packing::{AugmentChunk, AugmentContext};
use crate::search::{hit_label, hit_type_label};

verus! {

pub open spec fn title_text(title: Option<String>) -> Seq<char> {
    match title {
        Some(t) => t@,
        None => "(untitled)"@,
    }
}

/// `[C<citation>] [<label>] <title>`, the snippet, and a blank line.
pub open spec fn chunk_block(ch: AugmentChunk) -> Seq<char> {
    "[C"@ + int_text(ch.citation as int) + "] ["@ + hit_label(ch.hit_type) + "] "@ + title_text(
        ch.title,
    ) + "\n"@ + ch.snippet@ + "\n\n"@
}

pub open spec fn chunk_blocks(chunks: Seq<AugmentChunk>) -> Seq<char>
    decreases chunks.len(),
{
    if chunks.len() == 0 {
        Seq::empty()
    } else {
        chunk_blocks(chunks.drop_last()) + chunk_block(chunks.last())
    }
}

/// The blocks of all chunks in citation order between the context markers.
pub open spec fn rendered(chunks: Seq<AugmentChunk>) -> Seq<char> {
    "<context>\n"@ + chunk_blocks(chunks) + "</context>"@
}

/// The rendered block of one chunk.
fn chunk_text(ch: &AugmentChunk) -> (r: String)
    ensures
        r@ == chunk_block(*ch),
{
    let mut out = String::from_str("[C");
    let number = decimal_text(ch.citation as i128);
    out.append(number.as_str());
    out.append("] [");
    out.append(hit_type_label(ch.hit_type));
    out.append("] ");
    let ghost head = out@;
    match &ch.title {
        Some(t) => out.append(t.as_str()),
        None => out.append("(untitled)"),
    }
    assert(out@ == head + title_text(ch.title));
    out.append("\n");
    out.append(ch.snippet.as_str());
    out.append("\n\n");
    out
}

impl AugmentContext {
    /// The context as text to place in a prompt.
    pub fn render_prompt_block(&self) -> (r: String)
        ensures
            r@ == rendered(self.chunks@),
    {
        let mut out = String::from_str("<context>\n");
        let mut i: usize = 0;
        while i < self.chunks.len()
            invariant
                i <= self.chunks@.len(),
                out@ == "<context>\n"@ + chunk_blocks(self.chunks@.take(i as int)),
            decreases self.chunks@.len() - i,
        {
            let ghost before = out@;
            let block = chunk_text(&self.chunks[i]);
            out.append(block.as_str());
            proof {
                assert(self.chunks@.take(i + 1).drop_last() =~= self.chunks@.take(i as int));
                assert(out@ =~= before + chunk_block(self.chunks@[i as int]));
            }
            i = i + 1;
        }
        out.append("</context>");
        proof {
            assert(self.chunks@.take(self.chunks@.len() as int) =~= self.chunks@);
        }
        out
    }
}

} // verus!
