//! Rewrites a `.env` text into canonical form: entries sorted by key, each keeping the comment
//! lines just above it, header comments first and other stray comments last.
use vstd::prelude::*;

use crate::text::{
    chars_of, copy_range, find, find_char, trim_end, trim_start, lemma_lines_no_newline, lemma_pieces_extend,
    lemma_trim_idempotent, lemma_trim_nonempty, lemma_trim_within, less_than, lines, pieces,
    seq_lt, split_lines, starts_with, starts_with_vec, string_of, strip_cr, trim, trim_bounds,
    trim_vec, views,
};

verus! {

/// One block of a text: comment lines and the assignment line they stand above, or
/// comment lines alone.
struct EnvEntry {
    comments: Vec<Vec<char>>,
    key_line: Option<Vec<char>>,
    key: Option<Vec<char>>,
}

/// What a block holds, as mathematical values.
pub struct BlockModel {
    pub comments: Seq<Seq<char>>,
    pub key_line: Option<Seq<char>>,
    pub key: Option<Seq<char>>,
}

pub open spec fn opt_view(o: Option<Vec<char>>) -> Option<Seq<char>> {
    match o {
        Some(v) => Some(v@),
        None => None,
    }
}

impl View for EnvEntry {
    type V = BlockModel;

    closed spec fn view(&self) -> BlockModel {
        BlockModel {
            comments: views(self.comments@),
            key_line: opt_view(self.key_line),
            key: opt_view(self.key),
        }
    }
}

spec fn entry_views(v: Seq<EnvEntry>) -> Seq<BlockModel> {
    v.map_values(|e: EnvEntry| e@)
}

/// A trimmed line that assigns a key.
pub open spec fn is_key_line(t: Seq<char>) -> bool {
    t.len() > 0 && t[0] != '#' && find(t, '=') is Some
}

/// Drops every leading `export ` of `s`.
pub open spec fn strip_exports(s: Seq<char>) -> Seq<char>
    decreases s.len(),
{
    if starts_with(s, crate::parser::env::export_prefix()) {
        strip_exports(s.skip(7))
    } else {
        s
    }
}

/// The sort key of an assignment line: the text before its first `=`, without any leading
/// `export ` and trimmed.
pub open spec fn key_of(t: Seq<char>) -> Seq<char> {
    trim(strip_exports(trim(t.take(find(t, '=')->0))))
}

pub open spec fn comment_block(c: Seq<Seq<char>>) -> BlockModel {
    BlockModel { comments: c, key_line: None, key: None }
}

/// Finished blocks, and the comment lines not yet attached.
pub type ScanState = (Seq<BlockModel>, Seq<Seq<char>>);

/// Reads one trimmed line: a blank line closes pending comments into a block of their own,
/// an assignment line takes them, anything else joins them.
pub open spec fn step(st: ScanState, t: Seq<char>) -> ScanState {
    if t.len() == 0 {
        if st.1.len() > 0 {
            (st.0.push(comment_block(st.1)), Seq::empty())
        } else {
            st
        }
    } else if is_key_line(t) {
        (st.0.push(BlockModel { comments: st.1, key_line: Some(t), key: Some(key_of(t)) }), Seq::empty())
    } else {
        (st.0, st.1.push(t))
    }
}

pub open spec fn scan_from(st: ScanState, ts: Seq<Seq<char>>) -> ScanState
    decreases ts.len(),
{
    if ts.len() == 0 {
        st
    } else {
        step(scan_from(st, ts.drop_last()), ts.last())
    }
}

pub open spec fn finish(st: ScanState) -> Seq<BlockModel> {
    if st.1.len() > 0 {
        st.0.push(comment_block(st.1))
    } else {
        st.0
    }
}

/// The blocks of a sequence of trimmed lines.
pub open spec fn blocks(ts: Seq<Seq<char>>) -> Seq<BlockModel> {
    finish(scan_from((Seq::empty(), Seq::empty()), ts))
}

pub open spec fn block_key(b: BlockModel) -> Seq<char> {
    match b.key {
        Some(k) => k,
        None => Seq::empty(),
    }
}

/// Inserts `b` after every block of `s` whose key does not sort after `b`'s.
pub open spec fn insert_by_key(s: Seq<BlockModel>, b: BlockModel) -> Seq<BlockModel>
    decreases s.len(),
{
    if s.len() == 0 {
        seq![b]
    } else if !seq_lt(block_key(b), block_key(s.last())) {
        s.push(b)
    } else {
        insert_by_key(s.drop_last(), b).push(s.last())
    }
}

/// Header blocks, key blocks sorted stably by key, and footer blocks, of the first `n`
/// blocks: comment blocks before the first key block are header, later ones footer.
pub open spec fn arrange(bs: Seq<BlockModel>, n: int) -> (
    Seq<BlockModel>,
    Seq<BlockModel>,
    Seq<BlockModel>,
)
    decreases n,
{
    if n <= 0 || n > bs.len() {
        (Seq::empty(), Seq::empty(), Seq::empty())
    } else {
        let (h, b, f) = arrange(bs, n - 1);
        let e = bs[n - 1];
        if e.key is Some {
            (h, insert_by_key(b, e), f)
        } else if b.len() == 0 {
            (h.push(e), b, f)
        } else {
            (h, b, f.push(e))
        }
    }
}

pub open spec fn block_lines(b: BlockModel) -> Seq<Seq<char>> {
    match b.key_line {
        Some(l) => b.comments.push(l),
        None => b.comments,
    }
}

pub open spec fn render_lines(bs: Seq<BlockModel>) -> Seq<Seq<char>>
    decreases bs.len(),
{
    if bs.len() == 0 {
        Seq::empty()
    } else {
        render_lines(bs.drop_last()) + block_lines(bs.last())
    }
}

/// Each line followed by a newline.
pub open spec fn join_lines(ls: Seq<Seq<char>>) -> Seq<char>
    decreases ls.len(),
{
    if ls.len() == 0 {
        Seq::empty()
    } else {
        join_lines(ls.drop_last()) + ls.last().push('\n')
    }
}

pub open spec fn trimmed(ls: Seq<Seq<char>>) -> Seq<Seq<char>> {
    ls.map_values(|l: Seq<char>| trim(l))
}

/// The lines of the canonical form of a text.
pub open spec fn fixed_lines(content: Seq<char>) -> Seq<Seq<char>> {
    let bs = blocks(trimmed(lines(content)));
    let (h, b, f) = arrange(bs, bs.len() as int);
    render_lines(h) + render_lines(b) + render_lines(f)
}

/// The canonical form of a text; a text of whitespace alone is left as it is.
pub open spec fn fix_text(content: Seq<char>) -> Seq<char> {
    if trim(content).len() == 0 {
        content
    } else {
        let o = join_lines(fixed_lines(content));
        if o.len() > 0 && o.last() == '\n' {
            o
        } else {
            o.push('\n')
        }
    }
}

fn copy_lines(v: &Vec<Vec<char>>) -> (r: Vec<Vec<char>>)
    ensures
        views(r@) == views(v@),
{
    let mut r: Vec<Vec<char>> = Vec::new();
    let mut i: usize = 0;
    while i < v.len()
        invariant
            i <= v@.len(),
            views(r@) == views(v@).take(i as int),
        decreases v.len() - i,
    {
        let c = copy_range(v[i].as_slice(), 0, v[i].len());
        assert(c@ =~= v@[i as int]@);
        let ghost prev = views(r@);
        r.push(c);
        assert(views(r@) =~= prev.push(c@));
        i += 1;
        assert(views(r@) =~= views(v@).take(i as int));
    }
    assert(views(v@).take(v@.len() as int) =~= views(v@));
    r
}

fn strip_exports_vec(s: Vec<char>) -> (r: Vec<char>)
    ensures
        r@ == strip_exports(s@),
    decreases s@.len(),
{
    let mut prefix: Vec<char> = Vec::new();
    prefix.push('e');
    prefix.push('x');
    prefix.push('p');
    prefix.push('o');
    prefix.push('r');
    prefix.push('t');
    prefix.push(' ');
    assert(prefix@ =~= crate::parser::env::export_prefix());
    if starts_with_vec(s.as_slice(), prefix.as_slice()) {
        let rest = copy_range(s.as_slice(), 7, s.len());
        assert(rest@ =~= s@.skip(7));
        strip_exports_vec(rest)
    } else {
        s
    }
}

/// Reads one trimmed line into the scan state.
fn step_exec(done: &mut Vec<EnvEntry>, pending: &mut Vec<Vec<char>>, t: Vec<char>)
    ensures
        (entry_views(final(done)@), views(final(pending)@)) == step(
            (entry_views(old(done)@), views(old(pending)@)),
            t@,
        ),
{
    let ghost d0 = entry_views(done@);
    let ghost p0 = views(pending@);
    if t.len() == 0 {
        if pending.len() > 0 {
            let comments = copy_lines(pending);
            let e = EnvEntry { comments, key_line: None, key: None };
            done.push(e);
            assert(entry_views(done@) =~= d0.push(comment_block(p0)));
            *pending = Vec::new();
            assert(views(pending@) =~= Seq::empty());
        }
        return ;
    }
    if t[0] != '#' {
        match find_char(t.as_slice(), '=') {
            Some(k) => {
                let head = copy_range(t.as_slice(), 0, k);
                assert(head@ =~= t@.take(k as int));
                let key = trim_vec(strip_exports_vec(trim_vec(head.as_slice())).as_slice());
                let comments = copy_lines(pending);
                let e = EnvEntry { comments, key_line: Some(t), key: Some(key) };
                done.push(e);
                assert(entry_views(done@) =~= d0.push(e@));
                *pending = Vec::new();
                assert(views(pending@) =~= Seq::empty());
                return ;
            },
            None => {},
        }
    }
    pending.push(t);
    assert(views(pending@) =~= p0.push(t@));
}

fn key_slice(e: &EnvEntry) -> (r: &[char])
    ensures
        r@ == block_key(e@),
{
    match &e.key {
        Some(k) => k.as_slice(),
        None => &[],
    }
}

proof fn lemma_insert_by_key(s: Seq<BlockModel>, b: BlockModel, j: int)
    requires
        0 <= j <= s.len(),
        forall|m: int| j <= m < s.len() ==> seq_lt(block_key(b), block_key(s[m])),
        j > 0 ==> !seq_lt(block_key(b), block_key(s[j - 1])),
    ensures
        insert_by_key(s, b) == s.insert(j, b),
    decreases s.len(),
{
    if s.len() == j {
        assert(s.insert(j, b) =~= s.push(b));
    } else {
        lemma_insert_by_key(s.drop_last(), b, j);
        assert(s.insert(j, b) =~= s.drop_last().insert(j, b).push(s.last()));
    }
}

/// Inserts `e` into `body` after every block whose key does not sort after `e`'s.
fn insert_sorted(body: &mut Vec<EnvEntry>, e: EnvEntry)
    ensures
        entry_views(final(body)@) == insert_by_key(entry_views(old(body)@), e@),
{
    let mut j: usize = body.len();
    while j > 0 && less_than(key_slice(&e), key_slice(&body[j - 1]))
        invariant
            j <= body@.len(),
            forall|m: int| j <= m < body@.len() ==> seq_lt(block_key(e@), block_key(body@[m]@)),
        decreases j,
    {
        j -= 1;
    }
    let ghost before = entry_views(body@);
    proof {
        assert forall|m: int| j <= m < before.len() implies seq_lt(
            block_key(e@),
            block_key(before[m]),
        ) by {
            assert(before[m] == body@[m]@);
        }
        if j > 0 {
            assert(before[j - 1] == body@[j - 1]@);
        }
        lemma_insert_by_key(before, e@, j as int);
    }
    let ghost ev = e@;
    body.insert(j, e);
    assert(entry_views(body@) =~= before.insert(j as int, ev));
}

/// Appends each line of `ls` to `out`, followed by a newline.
fn push_lines(out: &mut Vec<char>, ls: &Vec<Vec<char>>)
    ensures
        final(out)@ == old(out)@ + join_lines(views(ls@)),
{
    let ghost o0 = out@;
    let mut i: usize = 0;
    while i < ls.len()
        invariant
            i <= ls@.len(),
            out@ == o0 + join_lines(views(ls@).take(i as int)),
        decreases ls.len() - i,
    {
        let line = &ls[i];
        let mut k: usize = 0;
        let ghost o1 = out@;
        while k < line.len()
            invariant
                k <= line@.len(),
                out@ == o1 + line@.take(k as int),
            decreases line.len() - k,
        {
            out.push(line[k]);
            k += 1;
            assert(out@ =~= o1 + line@.take(k as int));
        }
        out.push('\n');
        assert(views(ls@).take(i + 1).drop_last() =~= views(ls@).take(i as int));
        assert(views(ls@)[i as int] == line@);
        assert(line@.take(line@.len() as int) =~= line@);
        assert(out@ =~= o0 + join_lines(views(ls@).take(i + 1)));
        i += 1;
    }
    assert(views(ls@).take(ls@.len() as int) =~= views(ls@));
}

proof fn lemma_join_append(a: Seq<Seq<char>>, b: Seq<Seq<char>>)
    ensures
        join_lines(a + b) == join_lines(a) + join_lines(b),
    decreases b.len(),
{
    if b.len() == 0 {
        assert(a + b =~= a);
    } else {
        lemma_join_append(a, b.drop_last());
        assert((a + b).drop_last() =~= a + b.drop_last());
    }
}

/// Appends the lines of block `e` to `out`.
fn push_block(out: &mut Vec<char>, e: &EnvEntry)
    ensures
        final(out)@ == old(out)@ + join_lines(block_lines(e@)),
{
    push_lines(out, &e.comments);
    match &e.key_line {
        Some(l) => {
            let ghost o1 = out@;
            let mut k: usize = 0;
            while k < l.len()
                invariant
                    k <= l@.len(),
                    out@ == o1 + l@.take(k as int),
                decreases l.len() - k,
            {
                out.push(l[k]);
                k += 1;
                assert(out@ =~= o1 + l@.take(k as int));
            }
            out.push('\n');
            assert(l@.take(l@.len() as int) =~= l@);
            assert(e@.comments.push(l@).drop_last() =~= e@.comments);
        },
        None => {},
    }
}

/// Appends the lines of `bs` to `out`.
fn push_blocks(out: &mut Vec<char>, bs: &Vec<EnvEntry>)
    ensures
        final(out)@ == old(out)@ + join_lines(render_lines(entry_views(bs@))),
{
    let ghost o0 = out@;
    let mut i: usize = 0;
    while i < bs.len()
        invariant
            i <= bs@.len(),
            out@ == o0 + join_lines(render_lines(entry_views(bs@).take(i as int))),
        decreases bs.len() - i,
    {
        let ghost before = entry_views(bs@).take(i as int);
        push_block(out, &bs[i]);
        proof {
            assert(entry_views(bs@).take(i + 1).drop_last() =~= before);
            assert(entry_views(bs@)[i as int] == bs@[i as int]@);
            lemma_join_append(render_lines(before), block_lines(bs@[i as int]@));
        }
        i += 1;
    }
    assert(entry_views(bs@).take(bs@.len() as int) =~= entry_views(bs@));
}

/// The canonical form of `content`: blank lines dropped, every line trimmed, assignment
/// blocks sorted stably by key with their comments, header comments first and the other
/// comment-only blocks last, and a newline after every line. A text of whitespace alone is
/// returned as it is.
pub fn fix_content(content: &str) -> (r: String)
    ensures
        r@ == fix_text(content@),
{
    let cs = chars_of(content);
    let (lo, hi) = trim_bounds(cs.as_slice());
    if lo == hi {
        return string_of(cs.as_slice());
    }
    let ls = split_lines(cs.as_slice());
    let ghost ts = trimmed(lines(cs@));
    let mut done: Vec<EnvEntry> = Vec::new();
    let mut pending: Vec<Vec<char>> = Vec::new();
    let mut i: usize = 0;
    assert(ts.take(0) =~= Seq::<Seq<char>>::empty());
    while i < ls.len()
        invariant
            i <= ls@.len(),
            views(ls@) == lines(cs@),
            ts == trimmed(lines(cs@)),
            ts.len() == ls@.len(),
            (entry_views(done@), views(pending@)) == scan_from(
                (Seq::empty(), Seq::empty()),
                ts.take(i as int),
            ),
        decreases ls.len() - i,
    {
        let t = trim_vec(ls[i].as_slice());
        assert(ls@[i as int]@ == lines(cs@)[i as int]);
        assert(t@ == ts[i as int]);
        assert(ts.take(i + 1).drop_last() =~= ts.take(i as int));
        step_exec(&mut done, &mut pending, t);
        i += 1;
    }
    assert(ts.take(ls@.len() as int) =~= ts);
    if pending.len() > 0 {
        let ghost d0 = entry_views(done@);
        let ghost p0 = views(pending@);
        done.push(EnvEntry { comments: pending, key_line: None, key: None });
        assert(entry_views(done@) =~= d0.push(comment_block(p0)));
    }
    let ghost bs = blocks(ts);
    assert(entry_views(done@) == bs);
    let mut header: Vec<EnvEntry> = Vec::new();
    let mut body: Vec<EnvEntry> = Vec::new();
    let mut footer: Vec<EnvEntry> = Vec::new();
    let n = done.len();
    let mut rest = done;
    let mut k: usize = 0;
    assert(entry_views(rest@) =~= bs.skip(0));
    while k < n
        invariant
            k <= n == bs.len(),
            rest@.len() == n - k,
            entry_views(rest@) == bs.skip(k as int),
            (entry_views(header@), entry_views(body@), entry_views(footer@)) == arrange(
                bs,
                k as int,
            ),
        decreases n - k,
    {
        let ghost r0 = rest@;
        let e = rest.remove(0);
        assert(entry_views(r0)[0] == e@);
        assert(e@ == bs[k as int]);
        assert forall|m: int| 0 <= m < rest@.len() implies entry_views(rest@)[m] == bs.skip(
            k + 1,
        )[m] by {
            assert(rest@[m] == r0[m + 1]);
            assert(entry_views(r0)[m + 1] == r0[m + 1]@);
        }
        assert(entry_views(rest@) =~= bs.skip(k + 1));
        let ghost h0 = entry_views(header@);
        let ghost f0 = entry_views(footer@);
        if e.key.is_some() {
            insert_sorted(&mut body, e);
        } else if body.len() == 0 {
            header.push(e);
            assert(entry_views(header@) =~= h0.push(bs[k as int]));
        } else {
            footer.push(e);
            assert(entry_views(footer@) =~= f0.push(bs[k as int]));
        }
        k += 1;
    }
    let mut out: Vec<char> = Vec::new();
    push_blocks(&mut out, &header);
    push_blocks(&mut out, &body);
    push_blocks(&mut out, &footer);
    proof {
        let (h, b, f) = arrange(bs, bs.len() as int);
        lemma_join_append(render_lines(h), render_lines(b));
        lemma_join_append(render_lines(h) + render_lines(b), render_lines(f));
        assert(out@ =~= join_lines(fixed_lines(content@)));
    }
    if out.len() == 0 || out[out.len() - 1] != '\n' {
        out.push('\n');
    }
    string_of(out.as_slice())
}

/// A line of canonical output: trimmed, not empty, without a newline.
pub open spec fn line_ok(l: Seq<char>) -> bool {
    &&& trim(l) == l
    &&& l.len() > 0
    &&& forall|i: int| 0 <= i < l.len() ==> l[i] != '\n'
}

pub open spec fn comment_ok(l: Seq<char>) -> bool {
    line_ok(l) && !is_key_line(l)
}

pub open spec fn block_ok(b: BlockModel) -> bool {
    &&& forall|i: int| 0 <= i < b.comments.len() ==> comment_ok(#[trigger] b.comments[i])
    &&& match b.key_line {
        Some(l) => line_ok(l) && is_key_line(l) && b.key == Some(key_of(l)),
        None => b.key is None && b.comments.len() > 0,
    }
}

pub open spec fn all_ok(bs: Seq<BlockModel>) -> bool {
    forall|i: int| 0 <= i < bs.len() ==> block_ok(#[trigger] bs[i])
}

pub open spec fn all_keyed(bs: Seq<BlockModel>) -> bool {
    forall|i: int| 0 <= i < bs.len() ==> (#[trigger] bs[i]).key_line is Some
}

pub open spec fn all_unkeyed(bs: Seq<BlockModel>) -> bool {
    forall|i: int| 0 <= i < bs.len() ==> (#[trigger] bs[i]).key_line is None
}

pub open spec fn sorted_keys(s: Seq<BlockModel>) -> bool {
    forall|i: int| 1 <= i < s.len() ==> !seq_lt(block_key(#[trigger] s[i]), block_key(s[i - 1]))
}

proof fn lemma_scan_ok(st: ScanState, ts: Seq<Seq<char>>)
    requires
        all_ok(st.0),
        forall|i: int| 0 <= i < st.1.len() ==> comment_ok(#[trigger] st.1[i]),
        forall|i: int| 0 <= i < ts.len() ==> (#[trigger] ts[i]).len() == 0 || line_ok(ts[i]),
    ensures
        all_ok(scan_from(st, ts).0),
        forall|i: int|
            0 <= i < scan_from(st, ts).1.len() ==> comment_ok(#[trigger] scan_from(st, ts).1[i]),
    decreases ts.len(),
{
    if ts.len() > 0 {
        lemma_scan_ok(st, ts.drop_last());
        let s0 = scan_from(st, ts.drop_last());
        let t = ts.last();
        assert(t == ts[ts.len() - 1]);
        let s1 = step(s0, t);
        assert forall|i: int| 0 <= i < s1.0.len() implies block_ok(#[trigger] s1.0[i]) by {
            if i < s0.0.len() {
                assert(s1.0[i] == s0.0[i]);
            }
        }
        assert forall|i: int| 0 <= i < s1.1.len() implies comment_ok(#[trigger] s1.1[i]) by {
            if i < s0.1.len() {
                assert(s1.1[i] == s0.1[i]);
            }
        }
    }
}

proof fn lemma_blocks_ok(ts: Seq<Seq<char>>)
    requires
        forall|i: int| 0 <= i < ts.len() ==> (#[trigger] ts[i]).len() == 0 || line_ok(ts[i]),
    ensures
        all_ok(blocks(ts)),
{
    let st: ScanState = (Seq::empty(), Seq::empty());
    lemma_scan_ok(st, ts);
    let s1 = scan_from(st, ts);
    assert forall|i: int| 0 <= i < blocks(ts).len() implies block_ok(#[trigger] blocks(ts)[i]) by {
        if i < s1.0.len() {
            assert(blocks(ts)[i] == s1.0[i]);
        }
    }
}

proof fn lemma_scan_append(st: ScanState, a: Seq<Seq<char>>, b: Seq<Seq<char>>)
    ensures
        scan_from(st, a + b) == scan_from(scan_from(st, a), b),
    decreases b.len(),
{
    if b.len() == 0 {
        assert(a + b =~= a);
    } else {
        lemma_scan_append(st, a, b.drop_last());
        assert((a + b).drop_last() =~= a + b.drop_last());
        assert((a + b).last() == b.last());
    }
}

proof fn lemma_scan_comments(st: ScanState, c: Seq<Seq<char>>)
    requires
        forall|i: int| 0 <= i < c.len() ==> comment_ok(#[trigger] c[i]),
    ensures
        scan_from(st, c) == (st.0, st.1 + c),
    decreases c.len(),
{
    if c.len() == 0 {
        assert(st.1 + c =~= st.1);
    } else {
        lemma_scan_comments(st, c.drop_last());
        assert(comment_ok(c[c.len() - 1]));
        assert(st.1 + c.drop_last() + seq![c.last()] =~= st.1 + c);
    }
}

proof fn lemma_render_append(a: Seq<BlockModel>, c: Seq<BlockModel>)
    ensures
        render_lines(a + c) == render_lines(a) + render_lines(c),
    decreases c.len(),
{
    if c.len() == 0 {
        assert(a + c =~= a);
        assert(render_lines(a) + render_lines(c) =~= render_lines(a));
    } else {
        lemma_render_append(a, c.drop_last());
        assert((a + c).drop_last() =~= a + c.drop_last());
        assert((a + c).last() == c.last());
        assert(render_lines(a) + render_lines(c.drop_last()) + block_lines(c.last())
            =~= render_lines(a) + (render_lines(c.drop_last()) + block_lines(c.last())));
    }
}

/// Scanning the lines of well-formed keyed blocks, with nothing pending, gives them back.
proof fn lemma_scan_keyed(d: Seq<BlockModel>, k: Seq<BlockModel>)
    requires
        all_ok(k),
        all_keyed(k),
    ensures
        scan_from((d, Seq::empty()), render_lines(k)) == (d + k, Seq::<Seq<char>>::empty()),
    decreases k.len(),
{
    if k.len() == 0 {
        assert(d + k =~= d);
    } else {
        let k0 = k.drop_last();
        let b = k.last();
        assert(b == k[k.len() - 1]);
        assert(all_ok(k0)) by {
            assert forall|i: int| 0 <= i < k0.len() implies block_ok(#[trigger] k0[i]) by {
                assert(k0[i] == k[i]);
            }
        }
        assert(all_keyed(k0)) by {
            assert forall|i: int| 0 <= i < k0.len() implies (#[trigger] k0[i]).key_line is Some by {
                assert(k0[i] == k[i]);
            }
        }
        lemma_scan_keyed(d, k0);
        let l = b.key_line->0;
        lemma_scan_append((d, Seq::empty()), render_lines(k0), block_lines(b));
        lemma_scan_comments((d + k0, Seq::empty()), b.comments);
        assert(block_lines(b) == b.comments.push(l));
        assert(block_lines(b).drop_last() =~= b.comments);
        assert(Seq::<Seq<char>>::empty() + b.comments =~= b.comments);
        assert(b == BlockModel { comments: b.comments, key_line: Some(l), key: Some(key_of(l)) });
        assert((d + k0).push(b) =~= d + k);
    }
}

proof fn lemma_lt_asymmetric(a: Seq<char>, b: Seq<char>)
    requires
        seq_lt(a, b),
    ensures
        !seq_lt(b, a),
    decreases a.len(),
{
    if a.len() > 0 && b.len() > 0 && a[0] == b[0] {
        lemma_lt_asymmetric(a.drop_first(), b.drop_first());
    }
}

proof fn lemma_insert_props(s: Seq<BlockModel>, e: BlockModel)
    requires
        sorted_keys(s),
    ensures
        insert_by_key(s, e).len() == s.len() + 1,
        sorted_keys(insert_by_key(s, e)),
        insert_by_key(s, e).last() == e || (s.len() > 0 && insert_by_key(s, e).last()
            == s.last()),
    decreases s.len(),
{
    let r = insert_by_key(s, e);
    if s.len() == 0 {
    } else if !seq_lt(block_key(e), block_key(s.last())) {
        assert forall|i: int| 1 <= i < r.len() implies !seq_lt(
            block_key(#[trigger] r[i]),
            block_key(r[i - 1]),
        ) by {
            if i < s.len() {
                assert(r[i] == s[i] && r[i - 1] == s[i - 1]);
            }
        }
    } else {
        let s0 = s.drop_last();
        assert(sorted_keys(s0)) by {
            assert forall|i: int| 1 <= i < s0.len() implies !seq_lt(
                block_key(#[trigger] s0[i]),
                block_key(s0[i - 1]),
            ) by {
                assert(s0[i] == s[i] && s0[i - 1] == s[i - 1]);
            }
        }
        lemma_insert_props(s0, e);
        let r0 = insert_by_key(s0, e);
        lemma_lt_asymmetric(block_key(e), block_key(s.last()));
        assert forall|i: int| 1 <= i < r.len() implies !seq_lt(
            block_key(#[trigger] r[i]),
            block_key(r[i - 1]),
        ) by {
            if i < r0.len() {
                assert(r[i] == r0[i] && r[i - 1] == r0[i - 1]);
            } else {
                assert(r[i] == s.last());
                assert(r[i - 1] == r0.last());
                if r0.last() != e {
                    assert(r0.last() == s0.last());
                    assert(s0.last() == s[s.len() - 2]);
                    assert(s.last() == s[s.len() - 1]);
                }
            }
        }
    }
}

/// A property of every block of `s` and of `e` holds of every block after the insertion.
proof fn lemma_insert_keeps(s: Seq<BlockModel>, e: BlockModel, p: spec_fn(BlockModel) -> bool)
    requires
        forall|i: int| 0 <= i < s.len() ==> p(#[trigger] s[i]),
        p(e),
    ensures
        forall|i: int| 0 <= i < insert_by_key(s, e).len() ==> p(#[trigger] insert_by_key(s, e)[i]),
    decreases s.len(),
{
    let r = insert_by_key(s, e);
    if s.len() == 0 {
        assert(r[0] == e);
    } else if !seq_lt(block_key(e), block_key(s.last())) {
        assert forall|i: int| 0 <= i < r.len() implies p(#[trigger] r[i]) by {
            if i < s.len() {
                assert(r[i] == s[i]);
            }
        }
    } else {
        let s0 = s.drop_last();
        assert forall|i: int| 0 <= i < s0.len() implies p(#[trigger] s0[i]) by {
            assert(s0[i] == s[i]);
        }
        lemma_insert_keeps(s0, e, p);
        let r0 = insert_by_key(s0, e);
        assert forall|i: int| 0 <= i < r.len() implies p(#[trigger] r[i]) by {
            if i < r0.len() {
                assert(r[i] == r0[i]);
            } else {
                assert(r[i] == s[s.len() - 1]);
            }
        }
    }
}

/// What `arrange` makes of well-formed blocks: unkeyed header and footer, keyed and sorted
/// body, and no footer without a body.
proof fn lemma_arrange_props(bs: Seq<BlockModel>, n: int)
    requires
        all_ok(bs),
        0 <= n <= bs.len(),
    ensures
        ({
            let (h, b, f) = arrange(bs, n);
            &&& all_ok(h) && all_unkeyed(h)
            &&& all_ok(b) && all_keyed(b) && sorted_keys(b)
            &&& all_ok(f) && all_unkeyed(f)
            &&& b.len() == 0 ==> f.len() == 0
            &&& h.len() + b.len() + f.len() == n
        }),
    decreases n,
{
    if n > 0 {
        lemma_arrange_props(bs, n - 1);
        let (h, b, f) = arrange(bs, n - 1);
        let e = bs[n - 1];
        assert(block_ok(e));
        if e.key is Some {
            lemma_insert_props(b, e);
            let p = |x: BlockModel| block_ok(x) && x.key_line is Some;
            assert forall|i: int| 0 <= i < b.len() implies p(#[trigger] b[i]) by {}
            lemma_insert_keeps(b, e, p);
            let b1 = insert_by_key(b, e);
            assert forall|i: int| 0 <= i < b1.len() implies block_ok(#[trigger] b1[i]) by {
                assert(p(b1[i]));
            }
            assert forall|i: int| 0 <= i < b1.len() implies (#[trigger] b1[i]).key_line is Some by {
                assert(p(b1[i]));
            }
        } else {
            let h1 = h.push(e);
            let f1 = f.push(e);
            assert forall|i: int| 0 <= i < h1.len() implies block_ok(#[trigger] h1[i])
                && h1[i].key_line is None by {
                if i < h.len() {
                    assert(h1[i] == h[i]);
                }
            }
            assert forall|i: int| 0 <= i < f1.len() implies block_ok(#[trigger] f1[i])
                && f1[i].key_line is None by {
                if i < f.len() {
                    assert(f1[i] == f[i]);
                }
            }
        }
    }
}

/// Keyed blocks already in key order stay as they are.
proof fn lemma_arrange_sorted(bs: Seq<BlockModel>, m: int, n: int)
    requires
        0 <= n <= m <= bs.len(),
        forall|i: int| 0 <= i < m ==> (#[trigger] bs[i]).key is Some,
        forall|i: int| 1 <= i < m ==> !seq_lt(block_key(#[trigger] bs[i]), block_key(bs[i - 1])),
    ensures
        arrange(bs, n) == (Seq::<BlockModel>::empty(), bs.take(n), Seq::<BlockModel>::empty()),
    decreases n,
{
    if n > 0 {
        lemma_arrange_sorted(bs, m, n - 1);
        assert(bs[n - 1].key is Some);
        if n > 1 {
            assert(bs.take(n - 1).last() == bs[n - 2]);
            assert(!seq_lt(block_key(bs[n - 1]), block_key(bs[n - 2])));
        }
        assert(bs.take(n - 1).push(bs[n - 1]) =~= bs.take(n));
    } else {
        assert(bs.take(0) =~= Seq::<BlockModel>::empty());
    }
}

proof fn lemma_render_ok(bs: Seq<BlockModel>)
    requires
        all_ok(bs),
    ensures
        forall|i: int| 0 <= i < render_lines(bs).len() ==> line_ok(#[trigger] render_lines(bs)[i]),
        all_unkeyed(bs) ==> forall|i: int|
            0 <= i < render_lines(bs).len() ==> comment_ok(#[trigger] render_lines(bs)[i]),
        bs.len() > 0 ==> render_lines(bs).len() > 0,
    decreases bs.len(),
{
    if bs.len() > 0 {
        let b0 = bs.drop_last();
        assert(all_ok(b0)) by {
            assert forall|i: int| 0 <= i < b0.len() implies block_ok(#[trigger] b0[i]) by {
                assert(b0[i] == bs[i]);
            }
        }
        assert(all_unkeyed(bs) ==> all_unkeyed(b0)) by {
            if all_unkeyed(bs) {
                assert forall|i: int| 0 <= i < b0.len() implies (#[trigger] b0[i]).key_line is None by {
                    assert(b0[i] == bs[i]);
                }
            }
        }
        lemma_render_ok(b0);
        let b = bs.last();
        assert(block_ok(bs[bs.len() - 1]));
        let r0 = render_lines(b0);
        let bl = block_lines(b);
        assert forall|i: int| 0 <= i < render_lines(bs).len() implies line_ok(
            #[trigger] render_lines(bs)[i],
        ) by {
            if i < r0.len() {
                assert(render_lines(bs)[i] == r0[i]);
            } else {
                assert(render_lines(bs)[i] == bl[i - r0.len()]);
                if i - r0.len() < b.comments.len() {
                    assert(comment_ok(b.comments[i - r0.len()]));
                }
            }
        }
        if all_unkeyed(bs) {
            assert(bs[bs.len() - 1].key_line is None);
            assert forall|i: int| 0 <= i < render_lines(bs).len() implies comment_ok(
                #[trigger] render_lines(bs)[i],
            ) by {
                if i < r0.len() {
                    assert(render_lines(bs)[i] == r0[i]);
                } else {
                    assert(render_lines(bs)[i] == b.comments[i - r0.len()]);
                }
            }
        }
    }
}

proof fn lemma_render_single(b: BlockModel)
    ensures
        render_lines(seq![b]) == block_lines(b),
{
    assert(seq![b].drop_last() =~= Seq::<BlockModel>::empty());
    assert(render_lines(Seq::<BlockModel>::empty()) =~= Seq::<Seq<char>>::empty());
    assert(Seq::<Seq<char>>::empty() + block_lines(b) =~= block_lines(b));
}

proof fn lemma_join_pieces(o: Seq<Seq<char>>)
    requires
        forall|j: int, i: int| 0 <= j < o.len() && 0 <= i < o[j].len() ==> o[j][i] != '\n',
    ensures
        pieces(join_lines(o)) == o.push(Seq::empty()),
    decreases o.len(),
{
    if o.len() == 0 {
        assert(join_lines(o) =~= Seq::<char>::empty());
        assert(pieces(join_lines(o)) =~= o.push(Seq::empty()));
    } else {
        let o0 = o.drop_last();
        let l = o.last();
        assert forall|j: int, i: int| 0 <= j < o0.len() && 0 <= i < o0[j].len() implies o0[j][i]
            != '\n' by {
            assert(o0[j] == o[j]);
        }
        lemma_join_pieces(o0);
        assert forall|i: int| 0 <= i < l.len() implies l[i] != '\n' by {
            assert(l[i] == o[o.len() - 1][i]);
        }
        lemma_pieces_extend(join_lines(o0), l);
        assert(join_lines(o) == (join_lines(o0) + l).push('\n')) by {
            assert(join_lines(o0) + l.push('\n') =~= (join_lines(o0) + l).push('\n'));
        }
        assert(Seq::<char>::empty() + l =~= l);
        assert(o0.push(Seq::empty()).update(o0.len() as int, l) =~= o);
        assert((join_lines(o0) + l).push('\n').drop_last() =~= join_lines(o0) + l);
    }
}

proof fn lemma_lines_of_join(o: Seq<Seq<char>>)
    requires
        forall|j: int| 0 <= j < o.len() ==> line_ok(#[trigger] o[j]),
    ensures
        lines(join_lines(o)) == o,
{
    assert forall|j: int, i: int| 0 <= j < o.len() && 0 <= i < o[j].len() implies o[j][i]
        != '\n' by {
        assert(line_ok(o[j]));
    }
    lemma_join_pieces(o);
    let s = join_lines(o);
    assert forall|j: int| 0 <= j < o.len() implies strip_cr(#[trigger] o[j]) == o[j] by {
        assert(line_ok(o[j]));
        lemma_trim_idempotent(o[j]);
        assert(o[j].last() != '\r');
    }
    assert(lines(s) =~= o);
}

proof fn lemma_join_first(o: Seq<Seq<char>>)
    requires
        o.len() > 0,
        o[0].len() > 0,
    ensures
        join_lines(o).len() > 0,
        join_lines(o)[0] == o[0][0],
        join_lines(o).last() == '\n',
    decreases o.len(),
{
    if o.len() > 1 {
        lemma_join_first(o.drop_last());
        assert(o.drop_last()[0] == o[0]);
    } else {
        assert(o.drop_last().len() == 0);
        assert(join_lines(o.drop_last()) =~= Seq::<char>::empty());
        assert(join_lines(o) =~= o[0].push('\n'));
    }
}

/// The lines that the canonical form makes of trimmed lines `ts`.
pub open spec fn rearranged(ts: Seq<Seq<char>>) -> Seq<Seq<char>> {
    let bs = blocks(ts);
    let (h, b, f) = arrange(bs, bs.len() as int);
    render_lines(h) + render_lines(b) + render_lines(f)
}

/// Comment lines alone come back as they are.
proof fn lemma_reparse_comments(hc: Seq<Seq<char>>)
    requires
        hc.len() > 0,
        forall|i: int| 0 <= i < hc.len() ==> comment_ok(#[trigger] hc[i]),
    ensures
        rearranged(hc) == hc,
{
    let st0: ScanState = (Seq::empty(), Seq::empty());
    lemma_scan_comments(st0, hc);
    assert(Seq::<Seq<char>>::empty() + hc =~= hc);
    let bs2 = blocks(hc);
    assert(bs2 =~= seq![comment_block(hc)]);
    assert(arrange(bs2, 0) == (
        Seq::<BlockModel>::empty(),
        Seq::<BlockModel>::empty(),
        Seq::<BlockModel>::empty(),
    ));
    assert(arrange(bs2, 1) == (
        seq![comment_block(hc)],
        Seq::<BlockModel>::empty(),
        Seq::<BlockModel>::empty(),
    ));
    lemma_render_single(comment_block(hc));
    assert(render_lines(Seq::<BlockModel>::empty()) =~= Seq::<Seq<char>>::empty());
    assert(rearranged(hc) =~= hc);
}

/// Scanning header comments, sorted keyed blocks and footer comments, without blank lines,
/// gives one block per key, the first taking the header, and one footer block.
#[verifier::rlimit(50)]
proof fn lemma_scan_canonical(hc: Seq<Seq<char>>, b: Seq<BlockModel>, fc: Seq<Seq<char>>)
    requires
        b.len() > 0,
        all_ok(b),
        all_keyed(b),
        forall|i: int| 0 <= i < hc.len() ==> comment_ok(#[trigger] hc[i]),
        forall|i: int| 0 <= i < fc.len() ==> comment_ok(#[trigger] fc[i]),
    ensures
        ({
            let b0 = b[0];
            let l0 = b0.key_line->0;
            let b0x = BlockModel {
                comments: hc + b0.comments,
                key_line: Some(l0),
                key: Some(key_of(l0)),
            };
            scan_from((Seq::empty(), Seq::empty()), hc + render_lines(b) + fc) == (
                seq![b0x] + b.drop_first(),
                fc,
            )
        }),
{
    let st0: ScanState = (Seq::empty(), Seq::empty());
    let b0 = b[0];
    let rest = b.drop_first();
    assert(block_ok(b0) && b0.key_line is Some);
    let l0 = b0.key_line->0;
    let b0x = BlockModel { comments: hc + b0.comments, key_line: Some(l0), key: Some(key_of(l0)) };
    lemma_scan_append(st0, hc, render_lines(b) + fc);
    lemma_scan_comments(st0, hc);
    assert(hc + render_lines(b) + fc =~= hc + (render_lines(b) + fc));
    assert(b =~= seq![b0] + rest);
    lemma_render_append(seq![b0], rest);
    lemma_render_single(b0);
    let after_h = scan_from(st0, hc);
    assert(after_h == (Seq::<BlockModel>::empty(), hc)) by {
        assert(Seq::<Seq<char>>::empty() + hc =~= hc);
    }
    lemma_scan_append(after_h, block_lines(b0), render_lines(rest) + fc);
    assert(block_lines(b0) + (render_lines(rest) + fc) =~= render_lines(b) + fc);
    lemma_scan_comments(after_h, b0.comments);
    assert(block_lines(b0).drop_last() =~= b0.comments);
    let after_b0 = scan_from(after_h, block_lines(b0));
    assert(after_b0 == (seq![b0x], Seq::<Seq<char>>::empty())) by {
        assert(block_lines(b0) == b0.comments.push(l0));
        assert(Seq::<BlockModel>::empty().push(b0x) =~= seq![b0x]);
    }
    assert(all_ok(rest) && all_keyed(rest)) by {
        assert forall|i: int| 0 <= i < rest.len() implies block_ok(#[trigger] rest[i])
            && rest[i].key_line is Some by {
            assert(rest[i] == b[i + 1]);
        }
    }
    lemma_scan_append(after_b0, render_lines(rest), fc);
    lemma_scan_keyed(seq![b0x], rest);
    let after_rest = scan_from(after_b0, render_lines(rest));
    assert(after_rest == (seq![b0x] + rest, Seq::<Seq<char>>::empty()));
    lemma_scan_comments(after_rest, fc);
    assert(Seq::<Seq<char>>::empty() + fc =~= fc);
}

/// Header comments, sorted keyed blocks and footer comments, rendered and read again, come
/// back as they are.
#[verifier::rlimit(50)]
proof fn lemma_reparse_keyed(hc: Seq<Seq<char>>, b: Seq<BlockModel>, fc: Seq<Seq<char>>)
    requires
        b.len() > 0,
        all_ok(b),
        all_keyed(b),
        sorted_keys(b),
        forall|i: int| 0 <= i < hc.len() ==> comment_ok(#[trigger] hc[i]),
        forall|i: int| 0 <= i < fc.len() ==> comment_ok(#[trigger] fc[i]),
    ensures
        rearranged(hc + render_lines(b) + fc) == hc + render_lines(b) + fc,
{
    let o = hc + render_lines(b) + fc;
    lemma_scan_canonical(hc, b, fc);
    let b0 = b[0];
    let rest = b.drop_first();
    assert(block_ok(b0) && b0.key_line is Some);
    let l0 = b0.key_line->0;
    let b0x = BlockModel { comments: hc + b0.comments, key_line: Some(l0), key: Some(key_of(l0)) };
    let k = seq![b0x] + rest;
    assert(k.len() == b.len());
    assert forall|i: int| 0 <= i < k.len() implies (#[trigger] k[i]).key is Some && block_key(k[i])
        == block_key(b[i]) by {
        if i > 0 {
            assert(k[i] == rest[i - 1]);
            assert(rest[i - 1] == b[i]);
            assert(block_ok(b[i]));
        } else {
            assert(k[0] == b0x);
        }
    }
    let m = k.len() as int;
    assert forall|i: int| 1 <= i < m implies !seq_lt(block_key(#[trigger] k[i]), block_key(k[i - 1])) by {
        assert(block_key(k[i]) == block_key(b[i]));
        assert(block_key(k[i - 1]) == block_key(b[i - 1]));
    }
    let bs2 = blocks(o);
    if fc.len() > 0 {
        assert(bs2 == k.push(comment_block(fc)));
        assert forall|i: int| 0 <= i < m implies (#[trigger] bs2[i]).key is Some by {
            assert(bs2[i] == k[i]);
        }
        assert forall|i: int| 1 <= i < m implies !seq_lt(
            block_key(#[trigger] bs2[i]),
            block_key(bs2[i - 1]),
        ) by {
            assert(bs2[i] == k[i] && bs2[i - 1] == k[i - 1]);
        }
        lemma_arrange_sorted(bs2, m, m);
        assert(bs2.take(m) =~= k);
        assert(arrange(bs2, m + 1) == (Seq::<BlockModel>::empty(), k, seq![comment_block(fc)]));
        lemma_render_single(comment_block(fc));
    } else {
        assert(bs2 == k);
        lemma_arrange_sorted(bs2, m, m);
        assert(bs2.take(m) =~= k);
        assert(fc =~= Seq::<Seq<char>>::empty());
    }
    lemma_render_append(seq![b0x], rest);
    lemma_render_single(b0x);
    lemma_render_append(seq![b0], rest);
    lemma_render_single(b0);
    assert(b =~= seq![b0] + rest);
    assert(block_lines(b0x) =~= hc + block_lines(b0));
    assert(render_lines(Seq::<BlockModel>::empty()) =~= Seq::<Seq<char>>::empty());
    assert(rearranged(o) =~= o);
}

/// Fixing a fixed text changes nothing: `fix(fix(x)) == fix(x)` for every text, blank,
/// comment-only and already sorted ones included.
pub proof fn law_fix_idempotent(x: Seq<char>)
    ensures
        fix_text(fix_text(x)) == fix_text(x),
{
    if trim(x).len() == 0 {
        return ;
    }
    let ls = lines(x);
    let ts = trimmed(ls);
    lemma_lines_no_newline(x);
    assert forall|i: int| 0 <= i < ts.len() implies (#[trigger] ts[i]).len() == 0 || line_ok(
        ts[i],
    ) by {
        lemma_trim_idempotent(ls[i]);
        lemma_trim_within(ls[i], '\n');
    }
    let bs = blocks(ts);
    lemma_blocks_ok(ts);
    lemma_arrange_props(bs, bs.len() as int);
    let (h, b, f) = arrange(bs, bs.len() as int);
    let hc = render_lines(h);
    let fc = render_lines(f);
    lemma_render_ok(h);
    lemma_render_ok(b);
    lemma_render_ok(f);
    let o = fixed_lines(x);
    assert(o == hc + render_lines(b) + fc);
    assert forall|j: int| 0 <= j < o.len() implies line_ok(#[trigger] o[j]) by {
        if j < hc.len() {
            assert(o[j] == hc[j]);
        } else if j < hc.len() + render_lines(b).len() {
            assert(o[j] == render_lines(b)[j - hc.len()]);
        } else {
            assert(o[j] == fc[j - hc.len() - render_lines(b).len()]);
        }
    }
    if o.len() == 0 {
        assert(fix_text(x) == seq!['\n']);
        assert(trim(seq!['\n']).len() == 0) by {
            assert(seq!['\n'].drop_first() =~= Seq::<char>::empty());
            assert(trim_start(Seq::<char>::empty()) =~= Seq::<char>::empty());
            assert(trim_end(Seq::<char>::empty()) =~= Seq::<char>::empty());
        }
        return ;
    }
    let y = join_lines(o);
    lemma_join_first(o);
    assert(fix_text(x) == y);
    assert(line_ok(o[0]));
    lemma_trim_idempotent(o[0]);
    lemma_trim_nonempty(y);
    lemma_lines_of_join(o);
    assert(trimmed(lines(y)) =~= o) by {
        assert forall|j: int| 0 <= j < o.len() implies trimmed(lines(y))[j] == o[j] by {
            assert(line_ok(o[j]));
        }
    }
    if b.len() == 0 {
        assert(f.len() == 0);
        assert(fc =~= Seq::<Seq<char>>::empty());
        assert(render_lines(b) =~= Seq::<Seq<char>>::empty());
        assert(o =~= hc);
        lemma_reparse_comments(hc);
    } else {
        lemma_reparse_keyed(hc, b, fc);
    }
    assert(fixed_lines(y) == rearranged(trimmed(lines(y))));
}

} // verus!
