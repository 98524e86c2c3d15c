use vstd::prelude::*;

use crate::coords::{DocByte, DocLine};
use crate::ecs::{NodeId, RenderToken, SemanticKind, UastRegistry, link_in, node_index};
use crate::lines::{
    NL, is_line_start, lemma_line_start_pos, lemma_nl_count_bound, lemma_nl_count_step,
    lemma_nl_count_take_full, line_start_pos, nl_count,
};
use crate::minimap::count_newlines;
use crate::undo::text_bytes;

verus! {

/// What a folded node shows in place of its text: "❯❯❯" in UTF-8.
pub open spec fn fold_text() -> Seq<u8> {
    seq![0xE2u8, 0x9Du8, 0xAFu8, 0xE2u8, 0x9Du8, 0xAFu8, 0xE2u8, 0x9Du8, 0xAFu8]
}

/// Most tokens one viewport query returns before it stops.
pub const MAX_VIEWPORT_TOKENS: usize = 200;

/// Whether node index `i` has children and is folded: the walk shows it as one token.
pub open spec fn folded_at(reg: UastRegistry, i: int) -> bool {
    reg.edges@[i].first_child is Some && reg.is_folded@[i]
}

/// The nodes the viewport walk shows below `n`, first to last: `n` itself when it has no
/// children or is folded, else what the walk shows below each of its children. `fuel`
/// bounds the walk; in a tree of at most `fuel` nodes it is never the limit.
pub open spec fn subtree_units(reg: UastRegistry, n: NodeId, fuel: nat) -> Seq<NodeId>
    decreases fuel, 0nat,
{
    if fuel == 0 {
        Seq::empty()
    } else {
        let i = node_index(n);
        if reg.edges@[i].first_child is None || reg.is_folded@[i] {
            seq![n]
        } else {
            chain_units(reg, reg.edges@[i].first_child, (fuel - 1) as nat)
        }
    }
}

/// What the walk shows below each node of the sibling chain that starts at `c`.
pub open spec fn chain_units(reg: UastRegistry, c: Option<NodeId>, fuel: nat) -> Seq<NodeId>
    decreases fuel, 1nat,
{
    match c {
        None => Seq::empty(),
        Some(x) => if fuel == 0 {
            Seq::empty()
        } else {
            subtree_units(reg, x, fuel) + chain_units(
                reg,
                reg.edges@[node_index(x)].next_sibling,
                (fuel - 1) as nat,
            )
        },
    }
}

/// A render token as plain values: node, kind, text shown, bytes the node spans, line and
/// byte where the text shown starts, whether it is virtual, whether it is a fold.
pub type TokenView = (NodeId, SemanticKind, Seq<u8>, u32, u32, u64, bool, bool);

impl RenderToken {
    pub open spec fn view(&self) -> TokenView {
        (
            self.node_id,
            self.kind,
            self.text@,
            self.physical_byte_len,
            self.absolute_start_line.0,
            self.absolute_start_byte.0,
            self.is_virtual,
            self.is_folded,
        )
    }
}

/// The tokens as plain values.
pub open spec fn token_views(v: Seq<RenderToken>) -> Seq<TokenView> {
    v.map_values(|t: RenderToken| t.view())
}

/// Where the walk stands: the line and byte reached, the lines collected so far, and the
/// number of tokens made.
pub struct ScanState {
    pub line: u32,
    pub byte: u64,
    pub collected: u64,
    pub made: nat,
}

/// `a + b` saturating in 32 bits.
pub open spec fn sat32(a: u32, b: int) -> u32 {
    if a + b > u32::MAX {
        u32::MAX
    } else {
        (a + b) as u32
    }
}

/// `a + b` saturating in 64 bits.
pub open spec fn sat64(a: u64, b: int) -> u64 {
    if a + b > u64::MAX {
        u64::MAX
    } else {
        (a + b) as u64
    }
}

/// The bytes node index `i` shows: the fold marker for a fold, else its loaded bytes as
/// they are (none until they are loaded).
pub open spec fn unit_text(reg: UastRegistry, i: int) -> Seq<u8> {
    if folded_at(reg, i) {
        fold_text()
    } else {
        match reg.virtual_data@[i] {
            Some(d) => d@,
            None => Seq::empty(),
        }
    }
}

/// What the walk does at unit `n` from state `st`, looking for `target` with `has_next`
/// telling whether another unit follows: `None` when it passes over the unit (with the
/// state after it), else the token it shows, the state after it, and whether it stops.
pub open spec fn unit_step(
    reg: UastRegistry,
    n: NodeId,
    has_next: bool,
    st: ScanState,
    target: u32,
    line_count: u32,
) -> (Option<TokenView>, ScanState, bool) {
    let i = node_index(n);
    let folded = folded_at(reg, i);
    let m = reg.metrics@[i];
    let end = sat32(st.line, m.newlines as int);
    let passed = ScanState { line: end, byte: sat64(st.byte, m.byte_length as int), ..st };
    let text = unit_text(reg, i);
    if m.byte_length == 0 && m.newlines == 0 {
        (None, st, false)
    } else if folded && st.line < target && (end < target || (end == target && has_next)) {
        (None, passed, false)
    } else if !folded && st.line < target && st.line + m.newlines < target {
        (None, passed, false)
    } else {
        let skip = !folded && st.line < target && text.len() > 0;
        let off = if skip {
            line_start_pos(text, (target - st.line) as nat)
        } else {
            0
        };
        if skip && off == text.len() && has_next {
            (None, passed, false)
        } else {
            let shown = text.subrange(off, text.len() as int);
            let moved = !folded && st.line < target;
            let tok: TokenView = (
                n,
                reg.kinds@[i],
                shown,
                m.byte_length,
                if moved {
                    target
                } else {
                    st.line
                },
                sat64(st.byte, off),
                folded || reg.spans@[i] is None,
                folded,
            );
            let line0 = if moved {
                target
            } else {
                st.line
            };
            let grew: int = if folded {
                1
            } else if text.len() == 0 {
                m.newlines as int
            } else {
                (nl_count(shown) as u32) as int
            };
            let line1 = if folded || text.len() == 0 {
                sat32(line0, m.newlines as int)
            } else {
                sat32(line0, (nl_count(shown) as u32) as int)
            };
            let after = ScanState {
                line: line1,
                byte: sat64(st.byte, m.byte_length as int),
                collected: sat64(st.collected, grew),
                made: st.made + 1,
            };
            let lc: int = if line_count == 0 {
                1
            } else {
                line_count as int
            };
            (Some(tok), after, after.made > MAX_VIEWPORT_TOKENS || after.collected >= lc)
        }
    }
}

/// The tokens the walk shows from unit `k` of `units` on, from state `st`.
pub open spec fn scan_units(
    reg: UastRegistry,
    units: Seq<NodeId>,
    k: int,
    st: ScanState,
    target: u32,
    line_count: u32,
) -> Seq<TokenView>
    decreases units.len() - k,
{
    if k < 0 || k >= units.len() {
        Seq::empty()
    } else {
        let (tok, after, stop) = unit_step(reg, units[k], k + 1 < units.len(), st, target, line_count);
        match tok {
            None => scan_units(reg, units, k + 1, after, target, line_count),
            Some(t) => if stop {
                seq![t]
            } else {
                seq![t] + scan_units(reg, units, k + 1, after, target, line_count)
            },
        }
    }
}

/// The tokens a viewport of `line_count` lines (at least one) from line `target_line`
/// shows of the document below `root`: the walk over the nodes shown (folds as one token
/// each, skipping nodes that span nothing), starting at the node that holds the target
/// line, with the text before that line cut off, until enough lines are collected or
/// the token limit is passed.
pub open spec fn viewport_tokens(
    reg: UastRegistry,
    root: NodeId,
    target_line: DocLine,
    line_count: u32,
) -> Seq<TokenView> {
    scan_units(
        reg,
        subtree_units(reg, root, reg.capacity as nat),
        0,
        ScanState { line: 0, byte: 0, collected: 0, made: 0 },
        target_line.0,
        line_count,
    )
}

/// Appends what the walk shows below `n`.
fn collect_subtree(reg: &UastRegistry, n: NodeId, fuel: u32, out: &mut Vec<NodeId>)
    requires
        reg.wf(),
        0 <= node_index(n) < reg.capacity,
    ensures
        final(out)@ == old(out)@ + subtree_units(*reg, n, fuel as nat),
        (forall|j: int| 0 <= j < old(out)@.len() ==> 0 <= node_index(#[trigger] old(out)@[j]) < reg.capacity)
            ==> forall|j: int|
            0 <= j < final(out)@.len() ==> 0 <= node_index(#[trigger] final(out)@[j]) < reg.capacity,
    decreases fuel, 0nat,
{
    if fuel == 0 {
        assert(old(out)@ + Seq::<NodeId>::empty() =~= old(out)@);
        return;
    }
    let i = n.index();
    let first = reg.edges[i].first_child;
    if first.is_none() || reg.is_folded[i] {
        out.push(n);
        return;
    }
    collect_chain(reg, first, fuel - 1, out);
}

/// Appends what the walk shows below each node of the chain that starts at `c`.
fn collect_chain(reg: &UastRegistry, c: Option<NodeId>, fuel: u32, out: &mut Vec<NodeId>)
    requires
        reg.wf(),
        link_in(c, reg.capacity as int),
    ensures
        final(out)@ == old(out)@ + chain_units(*reg, c, fuel as nat),
        (forall|j: int| 0 <= j < old(out)@.len() ==> 0 <= node_index(#[trigger] old(out)@[j]) < reg.capacity)
            ==> forall|j: int|
            0 <= j < final(out)@.len() ==> 0 <= node_index(#[trigger] final(out)@[j]) < reg.capacity,
    decreases fuel, 1nat,
{
    let mut cur = c;
    let mut f = fuel;
    let ghost start = old(out)@;
    while cur.is_some() && f > 0
        invariant
            reg.wf(),
            link_in(cur, reg.capacity as int),
            f <= fuel,
            start + chain_units(*reg, c, fuel as nat) == out@ + chain_units(*reg, cur, f as nat),
            start == old(out)@,
            (forall|j: int| 0 <= j < start.len() ==> 0 <= node_index(#[trigger] start[j]) < reg.capacity)
                ==> forall|j: int|
                0 <= j < out@.len() ==> 0 <= node_index(#[trigger] out@[j]) < reg.capacity,
        decreases f,
    {
        let x = match cur {
            Some(x) => x,
            None => {
                return;
            },
        };
        let ghost before = out@;
        collect_subtree(reg, x, f, out);
        let next = reg.edges[x.index()].next_sibling;
        proof {
            assert(link_in(reg.edges@[node_index(x)].next_sibling, reg.capacity as int));
            assert(chain_units(*reg, cur, f as nat) == subtree_units(*reg, x, f as nat)
                + chain_units(*reg, next, (f - 1) as nat));
            assert(before + (subtree_units(*reg, x, f as nat) + chain_units(
                *reg,
                next,
                (f - 1) as nat,
            )) =~= out@ + chain_units(*reg, next, (f - 1) as nat));
        }
        cur = next;
        f = f - 1;
    }
    proof {
        assert(chain_units(*reg, cur, f as nat) =~= Seq::<NodeId>::empty());
        assert(out@ + Seq::<NodeId>::empty() =~= out@);
    }
}


/// Start of line `k` within `text`, or its end when it has fewer lines.
fn line_start_in(text: &[u8], k: u32) -> (r: usize)
    ensures
        r == line_start_pos(text@, k as nat),
{
    if k == 0 {
        proof {
            lemma_line_start_pos(text@, 0, 0);
        }
        return 0;
    }
    let mut count: u32 = 0;
    let mut i: usize = 0;
    while i < text.len()
        invariant
            0 < k,
            i <= text@.len(),
            count == nl_count(text@.take(i as int)),
            count < k,
        decreases text@.len() - i,
    {
        proof {
            lemma_nl_count_step(text@, i as int);
        }
        if text[i] == NL {
            count = count + 1;
            if count == k {
                proof {
                    assert(text@.take(i + 1).drop_last() =~= text@.take(i as int));
                    assert(is_line_start(text@, k as nat, i + 1));
                    lemma_line_start_pos(text@, k as nat, i + 1);
                }
                return i + 1;
            }
        }
        i = i + 1;
    }
    proof {
        assert(text@.take(i as int) =~= text@);
    }
    text.len()
}

/// The text node index `i` shows.
fn unit_text_of(reg: &UastRegistry, i: usize) -> (r: Vec<u8>)
    requires
        reg.wf(),
        i < reg.capacity,
    ensures
        r@ == unit_text(*reg, i as int),
{
    if reg.edges[i].first_child.is_some() && reg.is_folded[i] {
        let r = vec![0xE2u8, 0x9Du8, 0xAFu8, 0xE2u8, 0x9Du8, 0xAFu8, 0xE2u8, 0x9Du8, 0xAFu8];
        assert(r@ =~= fold_text());
        return r;
    }
    match &reg.virtual_data[i] {
        Some(d) => tail_of(d, 0),
        None => Vec::new(),
    }
}

/// Tail of `v` from index `off` on.
fn tail_of(v: &Vec<u8>, off: usize) -> (r: Vec<u8>)
    requires
        off <= v@.len(),
    ensures
        r@ == v@.subrange(off as int, v@.len() as int),
{
    let mut out: Vec<u8> = Vec::new();
    let mut k = off;
    while k < v.len()
        invariant
            off <= k <= v@.len(),
            out@ == v@.subrange(off as int, k as int),
        decreases v@.len() - k,
    {
        out.push(v[k]);
        k = k + 1;
        assert(out@ =~= v@.subrange(off as int, k as int));
    }
    out
}

/// The exec state of the walk.
struct Walk {
    line: u32,
    byte: u64,
    collected: u64,
}

/// One step of the walk at unit `n`; `made` tokens were made before it.
fn step_unit(
    reg: &UastRegistry,
    n: NodeId,
    has_next: bool,
    w: Walk,
    made: usize,
    target: u32,
    line_count: u32,
) -> (r: (Option<RenderToken>, Walk, bool))
    requires
        reg.wf(),
        0 <= node_index(n) < reg.capacity,
        made <= MAX_VIEWPORT_TOKENS,
    ensures
        ({
            let st = ScanState { line: w.line, byte: w.byte, collected: w.collected, made: made as nat };
            let (tok, after, stop) = unit_step(*reg, n, has_next, st, target, line_count);
            &&& r.1.line == after.line && r.1.byte == after.byte && r.1.collected == after.collected
            &&& r.2 == stop
            &&& match tok {
                None => r.0 is None && after.made == made,
                Some(t) => (r.0 matches Some(x) && x.view() == t) && after.made == made + 1,
            }
        }),
{
    let i = n.index();
    let folded = reg.edges[i].first_child.is_some() && reg.is_folded[i];
    let m = reg.metrics[i];
    let end = w.line.saturating_add(m.newlines);
    let passed = Walk { line: end, byte: w.byte.saturating_add(m.byte_length as u64), collected: w.collected };
    if m.byte_length == 0 && m.newlines == 0 {
        return (None, w, false);
    }
    if folded && w.line < target && (end < target || (end == target && has_next)) {
        return (None, passed, false);
    }
    if !folded && w.line < target && (w.line as u64) + (m.newlines as u64) < target as u64 {
        return (None, passed, false);
    }
    let text = unit_text_of(reg, i);
    let skip = !folded && w.line < target && text.len() > 0;
    let off = if skip {
        line_start_in(text.as_slice(), target - w.line)
    } else {
        0
    };
    proof {
        crate::lines::lemma_line_start_pos_range(text@, (target - w.line) as nat);
    }
    if skip && off == text.len() && has_next {
        return (None, passed, false);
    }
    let shown = tail_of(&text, off);
    let moved = !folded && w.line < target;
    let line0 = if moved {
        target
    } else {
        w.line
    };
    let shown_lines = count_newlines(shown.as_slice()) as u32;
    let (line1, grew): (u32, u64) = if folded {
        (line0.saturating_add(m.newlines), 1)
    } else if text.len() == 0 {
        (line0.saturating_add(m.newlines), m.newlines as u64)
    } else {
        (line0.saturating_add(shown_lines), shown_lines as u64)
    };
    let tok = RenderToken {
        node_id: n,
        kind: reg.kinds[i],
        text: shown,
        physical_byte_len: m.byte_length,
        absolute_start_line: DocLine(line0),
        absolute_start_byte: DocByte(w.byte.saturating_add(off as u64)),
        is_virtual: folded || reg.spans[i].is_none(),
        is_folded: folded,
    };
    let after = Walk {
        line: line1,
        byte: w.byte.saturating_add(m.byte_length as u64),
        collected: w.collected.saturating_add(grew),
    };
    let wanted: u64 = if line_count == 0 {
        1
    } else {
        line_count as u64
    };
    let stop = made + 1 > MAX_VIEWPORT_TOKENS || after.collected >= wanted;
    (Some(tok), after, stop)
}

impl UastRegistry {
    /// Sets whether node `node` is folded.
    pub fn set_folded(&mut self, node: NodeId, folded: bool)
        requires
            old(self).wf(),
            0 <= node_index(node) < old(self).capacity,
        ensures
            final(self).wf(),
            final(self).is_folded@ == old(self).is_folded@.update(node_index(node), folded),
            *final(self) == (UastRegistry { is_folded: final(self).is_folded, ..*old(self) }),
    {
        let i = node.index();
        self.is_folded.set(i, folded);
    }

    /// The tokens a viewport of `line_count` lines (at least one) starting at line
    /// `target_line` shows of the document under `root`; see `viewport_tokens`.
    pub fn query_viewport(&self, root: NodeId, target_line: DocLine, line_count: u32) -> (r: Vec<
        RenderToken,
    >)
        requires
            self.wf(),
            0 <= node_index(root) < self.capacity,
        ensures
            token_views(r@) == viewport_tokens(
                *self,
                root,
                target_line,
                line_count,
            ),
    {
        let mut units: Vec<NodeId> = Vec::new();
        collect_subtree(self, root, self.capacity, &mut units);
        assert(units@ =~= subtree_units(*self, root, self.capacity as nat));
        let ghost us = units@;
        let mut tokens: Vec<RenderToken> = Vec::new();
        let mut w = Walk { line: 0, byte: 0, collected: 0 };
        let mut k: usize = 0;
        let ghost whole = viewport_tokens(*self, root, target_line, line_count);
        while k < units.len()
            invariant
                self.wf(),
                whole == viewport_tokens(*self, root, target_line, line_count),
                us == units@,
                k <= units@.len(),
                tokens@.len() <= MAX_VIEWPORT_TOKENS,
                forall|j: int| 0 <= j < us.len() ==> 0 <= node_index(#[trigger] us[j]) < self.capacity,
                whole == token_views(tokens@) + scan_units(
                    *self,
                    us,
                    k as int,
                    ScanState {
                        line: w.line,
                        byte: w.byte,
                        collected: w.collected,
                        made: tokens@.len() as nat,
                    },
                    target_line.0,
                    line_count,
                ),
            decreases units@.len() - k,
        {
            let n = units[k];
            let has_next = k + 1 < units.len();
            proof {
                assert(0 <= node_index(us[k as int]) < self.capacity);
            }
            let made = tokens.len();
            let ghost st = ScanState { line: w.line, byte: w.byte, collected: w.collected, made: made as nat };
            let ghost before = token_views(tokens@);
            let (tok, after, stop) = step_unit(self, n, has_next, w, made, target_line.0, line_count);
            w = after;
            match tok {
                None => {},
                Some(t) => {
                    tokens.push(t);
                    proof {
                        assert(token_views(tokens@) =~= before.push(
                            t.view(),
                        ));
                    }
                    if stop {
                        proof {
                            assert(whole =~= token_views(tokens@));
                        }
                        return tokens;
                    }
                },
            }
            k = k + 1;
        }
        proof {
            assert(whole =~= token_views(tokens@));
        }
        tokens
    }
}

} // verus!
