use crate::bytes::Bytes;
use crate::value::{lemma_list_view, vals_of, Expr, Val};
use vstd::prelude::*;

verus! {

/// Why a source text does not parse.
#[derive(Clone, Copy, Debug, PartialEq, Eq, Structural)]
pub enum ParseError {
    /// A `)` at this byte offset closes no open list.
    UnmatchedClose(usize),
    /// The text ends, at this offset, while a list is still open.
    UnclosedList(usize),
}

/// Space, tab, line feed or carriage return.
pub open spec fn is_space(c: u8) -> bool {
    c == 32 || c == 9 || c == 10 || c == 13
}

/// A byte that cannot stand in an atom.
pub open spec fn is_delimiter(c: u8) -> bool {
    is_space(c) || c == 40 || c == 41
}

/// Where a parse stands: the lists still open, outermost first (the first
/// is the top level), and the bytes of the atom being read.
pub struct ParseState {
    pub frames: Seq<Seq<Val>>,
    pub atom: Seq<u8>,
}

/// The state before any byte is read.
pub open spec fn initial() -> ParseState {
    ParseState { frames: seq![Seq::empty()], atom: Seq::empty() }
}

/// `v` added at the end of the innermost open list.
pub open spec fn add_to_top(frames: Seq<Seq<Val>>, v: Val) -> Seq<Seq<Val>> {
    frames.update(frames.len() - 1, frames.last().push(v))
}

/// Ends the atom being read, if any, adding it to the innermost open list.
pub open spec fn flush(st: ParseState) -> ParseState {
    if st.atom.len() == 0 {
        st
    } else {
        ParseState { frames: add_to_top(st.frames, Val::Bytes(st.atom)), atom: Seq::empty() }
    }
}

/// Reads the byte `c` found at offset `pos`.
pub open spec fn feed_byte(st: ParseState, c: u8, pos: nat) -> Result<ParseState, ParseError> {
    if c == 40 {
        let s = flush(st);
        Ok(ParseState { frames: s.frames.push(Seq::empty()), atom: Seq::empty() })
    } else if c == 41 {
        let s = flush(st);
        if s.frames.len() <= 1 {
            Err(ParseError::UnmatchedClose(pos as usize))
        } else {
            let outer = s.frames.drop_last();
            Ok(ParseState { frames: add_to_top(outer, Val::List(s.frames.last())), atom: Seq::empty() })
        }
    } else if is_space(c) {
        Ok(flush(st))
    } else {
        Ok(ParseState { atom: st.atom.push(c), ..st })
    }
}

/// Reads the bytes of `s` in order, the first of them found at offset `base`.
pub open spec fn feed(st: ParseState, s: Seq<u8>, base: nat) -> Result<ParseState, ParseError>
    decreases s.len(),
{
    if s.len() == 0 {
        Ok(st)
    } else {
        match feed(st, s.drop_last(), base) {
            Ok(t) => feed_byte(t, s.last(), (base + s.len() - 1) as nat),
            Err(e) => Err(e),
        }
    }
}

/// The end of the text, at offset `pos`: every list must be closed.
pub open spec fn finish(st: ParseState, pos: nat) -> Result<Seq<Val>, ParseError> {
    let s = flush(st);
    if s.frames.len() == 1 {
        Ok(s.frames[0])
    } else {
        Err(ParseError::UnclosedList(pos as usize))
    }
}

/// The values that a source text denotes, in order, or why it has none.
pub open spec fn parse(src: Seq<u8>) -> Result<Seq<Val>, ParseError> {
    match feed(initial(), src, 0) {
        Ok(st) => finish(st, src.len()),
        Err(e) => Err(e),
    }
}

/// The text of a value: an atom as its bytes, a list as its elements'
/// texts, separated by single spaces, between parentheses.
pub open spec fn print_val(v: Val) -> Seq<u8>
    decreases v,
{
    match v {
        Val::Bytes(w) => w,
        Val::List(vs) => seq![40u8] + print_seq(vs) + seq![41u8],
    }
}

/// The texts of values, separated by single spaces.
pub open spec fn print_seq(vs: Seq<Val>) -> Seq<u8>
    decreases vs,
{
    if vs.len() == 0 {
        Seq::empty()
    } else if vs.len() == 1 {
        print_val(vs[0])
    } else {
        print_seq(vs.drop_last()) + seq![32u8] + print_val(vs.last())
    }
}

/// Whether a value reads back from its text: every atom is nonempty and
/// holds no space or parenthesis.
pub open spec fn printable(v: Val) -> bool
    decreases v,
{
    match v {
        Val::Bytes(w) => w.len() > 0 && forall|i: int| 0 <= i < w.len() ==> !is_delimiter(#[trigger] w[i]),
        Val::List(vs) => printable_seq(vs),
    }
}

/// Whether every value of a sequence reads back from its text.
pub open spec fn printable_seq(vs: Seq<Val>) -> bool
    decreases vs,
{
    if vs.len() == 0 {
        true
    } else {
        printable_seq(vs.drop_last()) && printable(vs.last())
    }
}

/// Reading two texts one after the other is reading their concatenation.
pub proof fn lemma_feed_concat(st: ParseState, a: Seq<u8>, b: Seq<u8>, base: nat)
    ensures
        feed(st, a + b, base) == (match feed(st, a, base) {
            Ok(t) => feed(t, b, base + a.len()),
            Err(e) => Err(e),
        }),
    decreases b.len(),
{
    if b.len() == 0 {
        assert(a + b =~= a);
    } else {
        lemma_feed_concat(st, a, b.drop_last(), base);
        assert((a + b).drop_last() =~= a + b.drop_last());
        assert((a + b).last() == b.last());
    }
}

/// Reading one byte.
pub proof fn lemma_feed_one(st: ParseState, c: u8, base: nat)
    ensures
        feed(st, seq![c], base) == feed_byte(st, c, base),
{
    let s = seq![c];
    assert(s.drop_last() =~= Seq::<u8>::empty());
    assert(feed(st, s.drop_last(), base) == Ok::<ParseState, ParseError>(st));
    assert(s.last() == c);
}

/// Reading an atom's bytes, with no atom pending, makes it the pending atom.
pub proof fn lemma_feed_atom(st: ParseState, w: Seq<u8>, base: nat)
    requires
        st.atom.len() == 0,
        forall|i: int| 0 <= i < w.len() ==> !is_delimiter(#[trigger] w[i]),
    ensures
        feed(st, w, base) == Ok::<ParseState, ParseError>(ParseState { atom: w, ..st }),
    decreases w.len(),
{
    if w.len() == 0 {
        assert(w =~= st.atom);
    } else {
        lemma_feed_atom(st, w.drop_last(), base);
        assert(!is_delimiter(w[w.len() - 1]));
        assert(w.drop_last().push(w.last()) =~= w);
    }
}

/// Reading the text of a printable value, with no atom pending, leaves the
/// value read: an atom pending, or a list added to the innermost open list.
pub proof fn lemma_feed_val(st: ParseState, v: Val, base: nat)
    requires
        st.atom.len() == 0,
        st.frames.len() >= 1,
        printable(v),
    ensures
        feed(st, print_val(v), base) is Ok,
        flush(feed(st, print_val(v), base)->Ok_0) == (ParseState {
            frames: add_to_top(st.frames, v),
            atom: Seq::empty(),
        }),
        feed(st, print_val(v), base)->Ok_0.frames.len() == st.frames.len(),
    decreases v, 1nat,
{
    match v {
        Val::Bytes(w) => {
            lemma_feed_atom(st, w, base);
        },
        Val::List(vs) => {
            let open = ParseState { frames: st.frames.push(Seq::empty()), atom: Seq::empty() };
            lemma_feed_one(st, 40u8, base);
            assert(flush(st) == st);
            lemma_feed_seq(open, vs, base + 1);
            let mid = feed(open, print_seq(vs), base + 1)->Ok_0;
            let body = seq![40u8] + print_seq(vs);
            lemma_feed_concat(st, seq![40u8], print_seq(vs), base);
            lemma_feed_concat(st, body, seq![41u8], base);
            lemma_feed_one(mid, 41u8, base + body.len());
            let fm = flush(mid);
            assert(fm.frames =~= st.frames.push(vs)) by {
                assert(open.frames.last() + vs =~= vs);
            }
            assert(fm.frames.drop_last() =~= st.frames);
            assert(fm.frames.last() == vs);
        },
    }
}

/// Reading the text of printable values, with no atom pending, adds them to
/// the innermost open list.
pub proof fn lemma_feed_seq(st: ParseState, vs: Seq<Val>, base: nat)
    requires
        st.atom.len() == 0,
        st.frames.len() >= 1,
        printable_seq(vs),
    ensures
        feed(st, print_seq(vs), base) is Ok,
        flush(feed(st, print_seq(vs), base)->Ok_0) == (ParseState {
            frames: st.frames.update(st.frames.len() - 1, st.frames.last() + vs),
            atom: Seq::empty(),
        }),
        feed(st, print_seq(vs), base)->Ok_0.frames.len() == st.frames.len(),
    decreases vs, 0nat,
{
    assert(st.atom =~= Seq::<u8>::empty());
    if vs.len() == 0 {
        assert(st.frames.last() + vs =~= st.frames.last());
        assert(st.frames.update(st.frames.len() - 1, st.frames.last()) =~= st.frames);
    } else if vs.len() == 1 {
        assert(printable_seq(vs.drop_last()) && printable(vs.last()));
        assert(vs.last() == vs[0]);
        lemma_feed_val(st, vs[0], base);
        assert(st.frames.last() + vs =~= st.frames.last().push(vs[0]));
    } else {
        let init = vs.drop_last();
        let last = vs.last();
        lemma_feed_seq(st, init, base);
        let s1 = feed(st, print_seq(init), base)->Ok_0;
        let a = print_seq(init) + seq![32u8];
        lemma_feed_concat(st, print_seq(init), seq![32u8], base);
        lemma_feed_one(s1, 32u8, base + print_seq(init).len());
        let s2 = flush(s1);
        lemma_feed_val(s2, last, base + a.len());
        lemma_feed_concat(st, a, print_val(last), base);
        assert(s2.frames.last() + seq![last] =~= st.frames.last() + vs) by {
            assert(st.frames.last() + init + seq![last] =~= st.frames.last() + vs);
        }
        let f = feed(s2, print_val(last), base + a.len())->Ok_0;
        let top = st.frames.last();
        let n = st.frames.len() - 1;
        assert(s2.frames == st.frames.update(n, top + init));
        assert(s2.frames.last() == top + init);
        assert((top + init).push(last) =~= top + vs);
        assert(print_seq(vs) == a + print_val(last));
        assert(feed(st, a, base) == Ok::<ParseState, ParseError>(s2));
        assert(feed(st, print_seq(vs), base) == Ok::<ParseState, ParseError>(f));
        assert(flush(f).frames =~= st.frames.update(n, top + vs));
    }
}

/// Parsing the text of printable values gives the same values back.
pub proof fn lemma_parse_print(vs: Seq<Val>)
    requires
        printable_seq(vs),
    ensures
        parse(print_seq(vs)) == Ok::<Seq<Val>, ParseError>(vs),
{
    lemma_feed_seq(initial(), vs, 0);
    assert(initial().frames.last() + vs =~= vs);
}

/// The lists being built, as values.
pub open spec fn frames_view(f: Seq<Vec<Expr>>) -> Seq<Seq<Val>> {
    Seq::new(f.len(), |i: int| vals_of(f[i]@))
}

/// The state that lists being built and a pending atom stand for.
pub open spec fn state_of(f: Seq<Vec<Expr>>, atom: Bytes) -> ParseState {
    ParseState { frames: frames_view(f), atom: atom@ }
}

/// Adds `e` at the end of the innermost list being built.
fn add_to_innermost(frames: &mut Vec<Vec<Expr>>, e: Expr)
    requires
        old(frames)@.len() >= 1,
    ensures
        frames_view(final(frames)@) == add_to_top(frames_view(old(frames)@), e@),
        final(frames)@.len() == old(frames)@.len(),
{
    let ghost f = frames@;
    let mut top = frames.pop().unwrap();
    let ghost t = top@;
    top.push(e);
    frames.push(top);
    assert(vals_of(t.push(e)) =~= vals_of(t).push(e@));
    assert(frames_view(frames@) =~= add_to_top(frames_view(f), e@));
}

/// Ends the pending atom, if any, adding it to the innermost list.
fn flush_atom(frames: &mut Vec<Vec<Expr>>, atom: &mut Bytes)
    requires
        old(frames)@.len() >= 1,
    ensures
        state_of(final(frames)@, *final(atom)) == flush(state_of(old(frames)@, *old(atom))),
        final(frames)@.len() == old(frames)@.len(),
{
    if atom.len() > 0 {
        let mut a = Bytes::new();
        std::mem::swap(&mut a, atom);
        add_to_innermost(frames, Expr::Bytes(a));
        assert(atom@ =~= Seq::<u8>::empty());
    }
}

/// Parses a source text into the values it denotes: parentheses delimit
/// lists, and runs of bytes other than spaces and parentheses are atoms.
pub fn parse_exprs(src: &[u8]) -> (r: Result<Vec<Expr>, ParseError>)
    ensures
        parse(src@) matches Ok(vs) ==> (r matches Ok(l) && vals_of(l@) == vs),
        parse(src@) matches Err(e) ==> r == Err::<Vec<Expr>, ParseError>(e),
{
    let mut frames: Vec<Vec<Expr>> = Vec::new();
    frames.push(Vec::new());
    let mut atom = Bytes::new();
    let mut i: usize = 0;
    assert(src@.subrange(0, 0) =~= Seq::<u8>::empty());
    assert(state_of(frames@, atom) == initial()) by {
        assert(vals_of(frames@[0]@) =~= Seq::<Val>::empty());
        assert(frames_view(frames@) =~= seq![Seq::<Val>::empty()]);
        assert(atom@ =~= Seq::<u8>::empty());
    }
    while i < src.len()
        invariant
            0 <= i <= src@.len(),
            frames@.len() >= 1,
            feed(initial(), src@.subrange(0, i as int), 0) == Ok::<ParseState, ParseError>(state_of(frames@, atom)),
        decreases src@.len() - i,
    {
        let c = src[i];
        let ghost before = state_of(frames@, atom);
        proof {
            let p = src@.subrange(0, i + 1);
            assert(p.drop_last() =~= src@.subrange(0, i as int));
        }
        if c == 40 {
            flush_atom(&mut frames, &mut atom);
            frames.push(Vec::new());
            assert(atom@ =~= Seq::<u8>::empty());
            assert(vals_of(frames@.last()@) =~= Seq::<Val>::empty());
            assert(frames_view(frames@) =~= flush(before).frames.push(Seq::empty()));
        } else if c == 41 {
            flush_atom(&mut frames, &mut atom);
            if frames.len() <= 1 {
                proof {
                    let a = src@.subrange(0, i + 1);
                    let b = src@.subrange(i + 1, src@.len() as int);
                    assert(a + b =~= src@);
                    lemma_feed_concat(initial(), a, b, 0);
                }
                return Err(ParseError::UnmatchedClose(i));
            }
            let ghost f = frames@;
            let inner = frames.pop().unwrap();
            proof {
                lemma_list_view(inner);
                assert(frames_view(frames@) =~= frames_view(f).drop_last());
                assert(frames_view(f).last() == vals_of(inner@));
            }
            add_to_innermost(&mut frames, Expr::List(inner));
            assert(atom@ =~= Seq::<u8>::empty());
        } else if c == 32 || c == 9 || c == 10 || c == 13 {
            flush_atom(&mut frames, &mut atom);
        } else {
            atom.push(c);
        }
        assert(feed(initial(), src@.subrange(0, i + 1), 0) == feed_byte(before, c, i as nat));
        i += 1;
    }
    assert(src@.subrange(0, src@.len() as int) =~= src@);
    flush_atom(&mut frames, &mut atom);
    if frames.len() == 1 {
        let top = frames.pop().unwrap();
        Ok(top)
    } else {
        Err(ParseError::UnclosedList(src.len()))
    }
}

impl Expr {
    /// Adds the text of this expression to `out`: an atom as its bytes, a
    /// list as its elements' texts, separated by single spaces, between
    /// parentheses.
    pub fn write_source(&self, out: &mut Vec<u8>)
        ensures
            final(out)@ == old(out)@ + print_val(self@),
        decreases self,
    {
        match self {
            Expr::Bytes(b) => {
                out.extend_from_slice(b.as_slice());
                assert(final(out)@ =~= old(out)@ + print_val(self@));
            },
            Expr::List(l) => {
                proof {
                    lemma_list_view(*l);
                }
                let ghost vs = vals_of(l@);
                out.push(40u8);
                let mut i: usize = 0;
                assert(vs.subrange(0, 0) =~= Seq::<Val>::empty());
                while i < l.len()
                    invariant
                        *self == Expr::List(*l),
                        vs == vals_of(l@),
                        0 <= i <= l@.len(),
                        out@ == old(out)@ + seq![40u8] + print_seq(vs.subrange(0, i as int)),
                    decreases l@.len() - i,
                {
                    proof {
                        assert(decreases_to!(*self => (*self)->List_0));
                        assert(decreases_to!(*l => l[i as int]));
                    }
                    let ghost before = out@;
                    let ghost sub = vs.subrange(0, i + 1);
                    assert(sub.drop_last() =~= vs.subrange(0, i as int));
                    assert(sub.last() == l@[i as int]@);
                    if i > 0 {
                        out.push(32u8);
                    }
                    l[i].write_source(out);
                    proof {
                        if i == 0 {
                            assert(out@ =~= old(out)@ + seq![40u8] + print_seq(sub));
                        } else {
                            assert(out@ =~= old(out)@ + seq![40u8] + print_seq(sub));
                        }
                    }
                    i += 1;
                }
                assert(vs.subrange(0, l@.len() as int) =~= vs);
                out.push(41u8);
                assert(out@ =~= old(out)@ + print_val(self@));
            },
        }
    }
}

/// The text of a sequence of expressions, separated by single spaces; the
/// parser reads it back as the same values when every atom is nonempty and
/// holds no space or parenthesis.
pub fn print_exprs(es: &[Expr]) -> (r: Vec<u8>)
    ensures
        r@ == print_seq(vals_of(es@)),
{
    let ghost vs = vals_of(es@);
    let mut out: Vec<u8> = Vec::new();
    let mut i: usize = 0;
    assert(vs.subrange(0, 0) =~= Seq::<Val>::empty());
    while i < es.len()
        invariant
            vs == vals_of(es@),
            0 <= i <= es@.len(),
            out@ == print_seq(vs.subrange(0, i as int)),
        decreases es@.len() - i,
    {
        let ghost before = out@;
        let ghost sub = vs.subrange(0, i + 1);
        assert(sub.drop_last() =~= vs.subrange(0, i as int));
        if i > 0 {
            out.push(32u8);
        }
        es[i].write_source(&mut out);
        proof {
            if i == 0 {
                assert(out@ =~= print_seq(sub));
            } else {
                assert(out@ =~= print_seq(sub));
            }
        }
        i += 1;
    }
    assert(vs.subrange(0, es@.len() as int) =~= vs);
    out
}

} // verus!
