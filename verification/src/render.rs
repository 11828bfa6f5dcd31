//! The renderer's entry point: one markdown string in, one HTML string out.
//!
//! The pipeline is a single synchronous pass — tokenize, transform the
//! fenced code blocks, serialize — with no state beyond the call. The
//! grammar registry it builds is immutable and read-only; it is rebuilt
//! per call because this crate can hold no process-wide cell for it, which
//! changes nothing the caller can observe. The function is total and
//! degrades instead of failing: an unknown language tag falls back to the
//! plain-text grammar, a line the highlighter cannot process to escaped,
//! unstyled text.

use vstd::prelude::*;

use crate::registry::Registry;
use crate::tokens::embeds_verbatim;
use crate::tokens::emit_html;
use crate::tokens::fence_regions_of;
use crate::tokens::html_parts;
use crate::tokens::plain_render_of;
use crate::tokens::render_unmodified;
use crate::tokens::tokenize;
use crate::tokens::weave;
use crate::transform::fence_html_ok;
use crate::transform::group_from;
use crate::transform::has_fence_token;
use crate::transform::lemma_fences_iff_starts;
use crate::transform::lemma_group_pass_tokens;
use crate::transform::lemma_substituted_blocks;
use crate::transform::region_fences;
use crate::transform::transform;
use crate::transform::FenceState;

verus! {

/// How a rendered post relates to its markdown source: for every fenced
/// code region of the source — each region's tag and body named by
/// [`fence_regions_of`] — the output embeds, in order and verbatim, one
/// block of markup meeting [`fence_html_ok`]: the `<pre>`/`<code>` wrapper
/// advertising the class the tag resolves to, around well-formed styled
/// markup whose plain text is exactly the region's body. The text between
/// and around the blocks is the serializer's rendering of the untouched
/// remainder of the stream.
pub open spec fn rendered_html_ok(source: Seq<char>, html: Seq<char>) -> bool {
    exists|blocks: Seq<Seq<char>>|
        #![auto]
        {
            &&& blocks.len() == fence_regions_of(source).len()
            &&& (forall|k: int|
                0 <= k < blocks.len() ==> fence_html_ok(
                    blocks[k],
                    fence_regions_of(source)[k].0,
                    fence_regions_of(source)[k].1,
                ))
            &&& embeds_verbatim(html, blocks)
        }
}

/// Render a markdown post body to the HTML stored and served for it: see
/// [`rendered_html_ok`] for what the output owes the source, and — the
/// pass-through identity — a source with no fenced code region renders
/// exactly as the serializer alone would render it, [`plain_render_of`].
pub fn md_to_html(input: &str) -> (html: String)
    ensures
        rendered_html_ok(input@, html@),
        fence_regions_of(input@).len() == 0 ==> html@ == plain_render_of(input@),
{
    let toks = tokenize(input);
    let ghost tv = toks@;
    if !has_fence_token(&toks) {
        proof {
            lemma_fences_iff_starts(tv);
            assert(fence_regions_of(input@).len() == 0);
        }
        let html = render_unmodified(input);
        proof {
            let blocks = Seq::<Seq<char>>::empty();
            let gaps = seq![html@];
            assert(weave(gaps, blocks) == gaps[0]);
            assert(gaps.len() == blocks.len() + 1);
            assert(embeds_verbatim(html@, blocks));
            assert(rendered_html_ok(input@, html@));
        }
        html
    } else {
        proof {
            lemma_fences_iff_starts(tv);
            assert(fence_regions_of(input@).len() != 0);
        }
        let reg = Registry::new();
        let out = transform(&reg, toks);
        let ghost ov = out@;
        let html = emit_html(out);
        proof {
            let regions = group_from(tv, FenceState::Outside);
            lemma_group_pass_tokens(tv, FenceState::Outside);
            lemma_substituted_blocks(regions, ov);
            let blocks = html_parts(ov);
            assert(region_fences(regions) == fence_regions_of(input@));
            assert(blocks.len() == fence_regions_of(input@).len());
            assert(forall|k: int|
                0 <= k < blocks.len() ==> fence_html_ok(
                    #[trigger] blocks[k],
                    fence_regions_of(input@)[k].0,
                    fence_regions_of(input@)[k].1,
                ));
            assert(embeds_verbatim(html@, blocks));
            assert(rendered_html_ok(input@, html@));
        }
        html
    }
}

} // verus!
