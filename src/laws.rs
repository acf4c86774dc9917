//! Properties that hold of resolution, measurement and wrapping across all inputs.

use vstd::prelude::*;

use crate::font::{lemma_first_claim, lemma_resolve, FontView, SheetView};
use crate::text::{join_lines, lemma_split_nl_len, lines_of, split_nl, strip_cr};

verus! {

/// The sheet that supplies a claimed character is the first one in the list that claims
/// it: a sheet that claims it wins over every later sheet that claims it too, whatever
/// their widths.
pub proof fn lemma_first_sheet_wins(f: FontView, c: char, i: int, h: int)
    requires
        0 <= i < f.sheets.len(),
        f.sheets[i].claims(c),
        forall|j: int| 0 <= j < i ==> !(#[trigger] f.sheets[j]).claims(c),
    ensures
        f.resolve(c) == Some((c, i)),
        f.char_width(c, h) == f.sheets[i].glyph_width(c, h),
{
    lemma_first_claim(f.sheets, c);
}

/// A character that no sheet claims is drawn as the fallback character, with the fallback
/// character's glyph and width, where fallback is on and a sheet claims the fallback
/// character.
pub proof fn lemma_tofu_fallback(f: FontView, c: char, h: int)
    requires
        forall|j: int| 0 <= j < f.sheets.len() ==> !(#[trigger] f.sheets[j]).claims(c),
        f.tofu != '\0',
        c != f.tofu,
        exists|j: int| 0 <= j < f.sheets.len() && (#[trigger] f.sheets[j]).claims(f.tofu),
    ensures
        f.resolve(c) is Some,
        f.resolve(c) == f.resolve(f.tofu),
        f.resolve(c)->Some_0.0 == f.tofu,
        f.char_width(c, h) == f.char_width(f.tofu, h),
{
    lemma_first_claim(f.sheets, c);
    lemma_first_claim(f.sheets, f.tofu);
}

/// Where no sheet claims the fallback character, no character that no sheet claims
/// resolves: the lookup ends after the fallback character's own lookup fails.
pub proof fn lemma_missing_tofu_fails(f: FontView, c: char)
    requires
        forall|j: int| 0 <= j < f.sheets.len() ==> !(#[trigger] f.sheets[j]).claims(c),
        forall|j: int| 0 <= j < f.sheets.len() ==> !(#[trigger] f.sheets[j]).claims(f.tofu),
    ensures
        f.resolve(c) is None,
{
    lemma_first_claim(f.sheets, c);
    lemma_first_claim(f.sheets, f.tofu);
}

/// A text without line feeds is one piece.
pub proof fn lemma_split_without_newline(s: Seq<char>)
    requires
        forall|k: int| 0 <= k < s.len() ==> s[k] != '\n',
    ensures
        split_nl(s) == seq![s],
    decreases s.len(),
{
    if s.len() > 0 {
        lemma_split_without_newline(s.drop_last());
        assert(s.drop_last().push(s.last()) == s);
        assert(split_nl(s) =~= seq![s]);
    } else {
        assert(s =~= Seq::<char>::empty());
    }
}

/// `n` copies of `c` are `n` times as wide as one.
pub proof fn lemma_width_of_copies(f: FontView, c: char, n: nat, h: int)
    ensures
        f.width_sum(Seq::new(n, |k: int| c), h) == n * f.char_width(c, h),
    decreases n,
{
    if n > 0 {
        let s = Seq::new(n, |k: int| c);
        lemma_width_of_copies(f, c, (n - 1) as nat, h);
        assert(s.drop_last() =~= Seq::new((n - 1) as nat, |k: int| c));
        assert(n * f.char_width(c, h) == (n - 1) * f.char_width(c, h) + f.char_width(c, h))
            by (nonlinear_arith);
    } else {
        assert(n * f.char_width(c, h) == 0) by (nonlinear_arith)
            requires
                n == 0,
        ;
    }
}

/// With a single sheet, a text of `n` copies of one character that the sheet claims (other
/// than a line feed) is exactly `n` times as wide as that character's glyph.
pub proof fn lemma_uniform_text_width(f: FontView, c: char, n: nat, h: int)
    requires
        f.wf(),
        f.sheets.len() == 1,
        f.sheets[0].claims(c),
        c != '\n',
        h >= 0,
    ensures
        f.text_width(Seq::new(n, |k: int| c), h) == Some(n * f.sheets[0].glyph_width(c, h)),
{
    let s = Seq::new(n, |k: int| c);
    lemma_first_sheet_wins(f, c, 0, h);
    lemma_split_without_newline(s);
    lemma_width_of_copies(f, c, n, h);
    let sh = f.sheets[0];
    lemma_glyph_width_nonneg(sh, c, h);
    assert(n * sh.glyph_width(c, h) >= 0) by (nonlinear_arith)
        requires
            sh.glyph_width(c, h) >= 0,
    ;
    let ls = lines_of(s);
    if n == 0 {
        assert(ls.len() == 0);
        assert(n * sh.glyph_width(c, h) == 0) by (nonlinear_arith)
            requires
                n == 0,
        ;
    } else {
        assert(ls =~= seq![s]);
        assert(ls.drop_last() =~= Seq::<Seq<char>>::empty());
        assert(f.max_width(ls.drop_last(), h) == 0);
        assert(f.all_resolve(s));
        assert(f.all_lines_resolve(ls));
        assert(f.max_width(ls, h) == f.width_sum(s, h));
    }
}

/// Splitting at a line feed between two texts splits each of them.
pub proof fn lemma_split_concat(a: Seq<char>, b: Seq<char>)
    ensures
        split_nl(a.push('\n') + b) == split_nl(a) + split_nl(b),
    decreases b.len(),
{
    if b.len() == 0 {
        assert(a.push('\n') + b =~= a.push('\n'));
        assert(a.push('\n').drop_last() =~= a);
        assert(split_nl(a).push(Seq::empty()) =~= split_nl(a) + split_nl(b));
    } else {
        let b0 = b.drop_last();
        let x = b.last();
        lemma_split_concat(a, b0);
        lemma_split_nl_len(b0);
        assert((a.push('\n') + b).drop_last() =~= a.push('\n') + b0);
        assert((a.push('\n') + b).last() == x);
        let p = split_nl(a);
        let q = split_nl(b0);
        if x == '\n' {
            assert((p + q).push(Seq::empty()) =~= p + q.push(Seq::empty()));
        } else {
            let pq = p + q;
            assert(pq.update(pq.len() - 1, pq.last().push(x)) =~= p + q.update(
                q.len() - 1,
                q.last().push(x),
            ));
        }
    }
}

/// Joining the pieces between line feeds gives the text back.
pub proof fn lemma_join_split(s: Seq<char>)
    ensures
        join_lines(split_nl(s)) == s,
    decreases s.len(),
{
    if s.len() == 0 {
        assert(join_lines(split_nl(s)) == Seq::<char>::empty());
        assert(s =~= Seq::<char>::empty());
    } else {
        let t = s.drop_last();
        let x = s.last();
        lemma_join_split(t);
        lemma_split_nl_len(t);
        let p = split_nl(t);
        assert(t.push(x) == s);
        if x == '\n' {
            let q = p.push(Seq::empty());
            assert(q.drop_last() == p);
            assert(join_lines(q) =~= join_lines(p).push('\n') + Seq::<char>::empty());
        } else {
            let q = p.update(p.len() - 1, p.last().push(x));
            if p.len() == 1 {
                assert(join_lines(q) == q[0]);
            } else {
                assert(q.drop_last() =~= p.drop_last());
                assert(join_lines(q) =~= join_lines(p).push(x));
            }
        }
    }
}

/// The last piece between line feeds is empty exactly where the text is empty or ends in a
/// line feed.
pub proof fn lemma_split_last_empty(s: Seq<char>)
    ensures
        (split_nl(s).last().len() == 0) <==> (s.len() == 0 || s.last() == '\n'),
{
    if s.len() > 0 {
        lemma_split_nl_len(s.drop_last());
    }
}

/// A piece between line feeds that is followed by a line feed and ends in a carriage
/// return stands before a carriage return and line feed pair of the text.
pub proof fn lemma_split_cr(s: Seq<char>, k: int)
    requires
        0 <= k < split_nl(s).len() - 1,
        split_nl(s)[k].len() > 0,
        split_nl(s)[k].last() == '\r',
    ensures
        exists|m: int| 0 <= m < s.len() - 1 && s[m] == '\r' && #[trigger] s[m + 1] == '\n',
    decreases s.len(),
{
    let t = s.drop_last();
    lemma_split_nl_len(t);
    let p = split_nl(t);
    if s.last() == '\n' {
        if k < p.len() - 1 {
            lemma_split_cr(t, k);
            let m = choose|m: int| 0 <= m < t.len() - 1 && t[m] == '\r' && #[trigger] t[m + 1] == '\n';
            assert(s[m] == '\r' && s[m + 1] == '\n');
        } else {
            lemma_split_last_empty(t);
            lemma_split_last_char(t);
            let m = s.len() - 2;
            assert(p[k] == p.last());
            assert(t.last() == '\r');
            assert(s[m] == '\r' && s[m + 1] == '\n');
        }
    } else {
        lemma_split_cr(t, k);
        let m = choose|m: int| 0 <= m < t.len() - 1 && t[m] == '\r' && #[trigger] t[m + 1] == '\n';
        assert(s[m] == '\r' && s[m + 1] == '\n');
    }
}

/// A non-empty last piece ends with the text's last character.
pub proof fn lemma_split_last_char(s: Seq<char>)
    requires
        split_nl(s).last().len() > 0,
    ensures
        s.len() > 0,
        split_nl(s).last().last() == s.last(),
{
    lemma_split_last_empty(s);
    if s.len() > 0 {
        lemma_split_nl_len(s.drop_last());
    }
}

/// A glyph of a well-formed sheet is never narrower than nothing.
pub proof fn lemma_glyph_width_nonneg(sh: SheetView, c: char, h: int)
    requires
        sh.wf(),
        sh.in_range(c),
        h >= 0,
    ensures
        sh.glyph_width(c, h) >= 0,
{
    assert(sh.cell_width() >= 0);
    assert(sh.cell_width() * sh.widths[sh.index_of(c)] * h * sh.rows >= 0) by (nonlinear_arith)
        requires
            sh.cell_width() >= 0,
            sh.widths[sh.index_of(c)] >= 0,
            h >= 0,
            sh.rows >= 0,
    ;
    assert(sh.atlas_height * sh.visible() > 0) by (nonlinear_arith)
        requires
            sh.atlas_height >= 1,
            sh.visible() >= 1,
    ;
}

/// The glyph drawn for a character that resolves is never narrower than nothing.
pub proof fn lemma_char_width_nonneg(f: FontView, c: char, h: int)
    requires
        f.wf(),
        f.resolve(c) is Some,
        h >= 0,
    ensures
        f.char_width(c, h) >= 0,
{
    lemma_resolve(f, c);
    let (d, i) = f.resolve(c)->Some_0;
    lemma_glyph_width_nonneg(f.sheets[i], d, h);
}

/// A piece of wrapped text that fits: every character resolves, and it is no wider than
/// `max_w` unless it is a single character.
pub open spec fn piece_fits(f: FontView, piece: Seq<char>, max_w: int, h: int) -> bool {
    f.all_resolve(piece) && (f.width_sum(piece, h) <= max_w || piece.len() == 1)
}

pub open spec fn pieces_fit(f: FontView, pieces: Seq<Seq<char>>, max_w: int, h: int) -> bool {
    forall|k: int| 0 <= k < pieces.len() ==> piece_fits(f, #[trigger] pieces[k], max_w, h)
}

/// Every character of `s` is a line feed or a character that is drawn as itself.
pub open spec fn drawn_as_itself(f: FontView, s: Seq<char>) -> bool {
    forall|k: int|
        0 <= k < s.len() ==> (#[trigger] s[k] == '\n' || (f.resolve(s[k]) is Some && f.resolve(
            s[k],
        )->Some_0.0 == s[k]))
}

proof fn lemma_pieces_fit_push(f: FontView, ps: Seq<Seq<char>>, x: Seq<char>, max_w: int, h: int)
    requires
        pieces_fit(f, ps, max_w, h),
        piece_fits(f, x, max_w, h),
    ensures
        pieces_fit(f, ps.push(x), max_w, h),
{
    assert forall|k: int| 0 <= k < ps.push(x).len() implies piece_fits(
        f,
        #[trigger] ps.push(x)[k],
        max_w,
        h,
    ) by {
        if k < ps.len() {
            assert(ps.push(x)[k] == ps[k]);
        }
    }
}

proof fn lemma_width_sum_push(f: FontView, s: Seq<char>, c: char, h: int)
    ensures
        f.width_sum(s.push(c), h) == f.width_sum(s, h) + f.char_width(c, h),
{
    assert(s.push(c).drop_last() =~= s);
}

proof fn lemma_all_resolve_push(f: FontView, s: Seq<char>, c: char)
    requires
        f.all_resolve(s),
        f.resolve(c) is Some,
    ensures
        f.all_resolve(s.push(c)),
{
    assert forall|k: int| 0 <= k < s.push(c).len() implies (#[trigger] f.resolve(
        s.push(c)[k],
    )) is Some by {
        if k < s.len() {
            assert(s.push(c)[k] == s[k]);
        }
    }
}

/// What holds at every step of the greedy wrap of one line: every finished piece fits, the
/// piece being written is no wider than the running width, and that width passes `max_w`
/// only while the piece holds at most one character.
pub proof fn lemma_wrap_state(f: FontView, s: Seq<char>, max_w: int, h: int)
    requires
        f.wf(),
        max_w >= 0,
        h >= 0,
        f.all_resolve(s),
    ensures
        ({
            let (out, w) = f.wrap_state(s, max_w, h);
            let p = split_nl(out);
            &&& w >= 0
            &&& pieces_fit(f, p.drop_last(), max_w, h)
            &&& f.all_resolve(p.last())
            &&& f.width_sum(p.last(), h) <= w
            &&& (w <= max_w || p.last().len() <= 1)
            &&& drawn_as_itself(f, out)
        }),
    decreases s.len(),
{
    if s.len() == 0 {
        let p = split_nl(Seq::<char>::empty());
        assert(p.drop_last() =~= Seq::<Seq<char>>::empty());
        assert(p.last() =~= Seq::<char>::empty());
    } else {
        let s0 = s.drop_last();
        assert forall|k: int| 0 <= k < s0.len() implies (#[trigger] f.resolve(s0[k])) is Some by {
            assert(s0[k] == s[k]);
        }
        lemma_wrap_state(f, s0, max_w, h);
        let (out0, w0) = f.wrap_state(s0, max_w, h);
        let c = s.last();
        assert(f.resolve(c) is Some);
        lemma_resolve(f, c);
        lemma_char_width_nonneg(f, c, h);
        let (d, i) = f.resolve(c)->Some_0;
        let cw = f.char_width(c, h);
        assert(f.char_width(d, h) == cw);
        let before = split_nl(out0);
        lemma_split_nl_len(out0);
        let l0 = before.last();
        assert(before == before.drop_last().push(l0));
        let (out, w) = f.wrap_state(s, max_w, h);
        assert(f.width_sum(Seq::<char>::empty(), h) == 0);
        lemma_width_sum_push(f, Seq::<char>::empty(), d, h);
        assert(Seq::<char>::empty().push(d) =~= seq![d]);
        lemma_all_resolve_push(f, Seq::<char>::empty(), d);
        if w0 + cw > max_w {
            let out1 = out0.push('\n');
            assert(out1.drop_last() == out0);
            let middle = split_nl(out1);
            assert(middle == before.push(Seq::<char>::empty()));
            assert(piece_fits(f, l0, max_w, h));
            lemma_pieces_fit_push(f, before.drop_last(), l0, max_w, h);
            assert(middle.drop_last() =~= before);
            assert(out == out1.push(d));
            assert(out.drop_last() == out1);
            let p = split_nl(out);
            if d == '\n' {
                assert(p == middle.push(Seq::<char>::empty()));
                assert(p.drop_last() == middle);
                assert(piece_fits(f, Seq::<char>::empty(), max_w, h));
                lemma_pieces_fit_push(f, before, Seq::<char>::empty(), max_w, h);
            } else {
                assert(p =~= before.push(seq![d]));
                assert(p.drop_last() =~= before);
            }
            assert(drawn_as_itself(f, out)) by {
                assert forall|k: int| 0 <= k < out.len() implies (#[trigger] out[k] == '\n' || (
                f.resolve(out[k]) is Some && f.resolve(out[k])->Some_0.0 == out[k])) by {
                    if k < out0.len() {
                        assert(out[k] == out0[k]);
                    }
                }
            }
        } else {
            assert(out == out0.push(d));
            assert(out.drop_last() == out0);
            let p = split_nl(out);
            if d == '\n' {
                assert(p == before.push(Seq::<char>::empty()));
                assert(p.drop_last() == before);
                assert(piece_fits(f, l0, max_w, h));
                lemma_pieces_fit_push(f, before.drop_last(), l0, max_w, h);
            } else {
                assert(p == before.update(before.len() - 1, l0.push(d)));
                assert(p.drop_last() =~= before.drop_last());
                lemma_width_sum_push(f, l0, d, h);
                lemma_all_resolve_push(f, l0, d);
            }
            assert(drawn_as_itself(f, out)) by {
                assert forall|k: int| 0 <= k < out.len() implies (#[trigger] out[k] == '\n' || (
                f.resolve(out[k]) is Some && f.resolve(out[k])->Some_0.0 == out[k])) by {
                    if k < out0.len() {
                        assert(out[k] == out0[k]);
                    }
                }
            }
        }
    }
}

/// Every piece of a wrapped line fits, and each of its characters is drawn as itself.
pub proof fn lemma_wrap_line_pieces(f: FontView, s: Seq<char>, max_w: int, h: int)
    requires
        f.wf(),
        max_w >= 0,
        h >= 0,
        f.all_resolve(s),
    ensures
        pieces_fit(f, split_nl(f.wrap_line(s, max_w, h)), max_w, h),
        drawn_as_itself(f, f.wrap_line(s, max_w, h)),
{
    lemma_wrap_state(f, s, max_w, h);
    let (out, w) = f.wrap_state(s, max_w, h);
    let p = split_nl(out);
    lemma_split_nl_len(out);
    if p.last().len() == 0 {
        assert(p.last() =~= Seq::<char>::empty());
    }
    assert(piece_fits(f, p.last(), max_w, h));
    lemma_pieces_fit_push(f, p.drop_last(), p.last(), max_w, h);
    assert(p.drop_last().push(p.last()) == p);
}

proof fn lemma_pieces_fit_concat(
    f: FontView,
    a: Seq<Seq<char>>,
    b: Seq<Seq<char>>,
    max_w: int,
    h: int,
)
    requires
        pieces_fit(f, a, max_w, h),
        pieces_fit(f, b, max_w, h),
    ensures
        pieces_fit(f, a + b, max_w, h),
{
    assert forall|k: int| 0 <= k < (a + b).len() implies piece_fits(
        f,
        #[trigger] (a + b)[k],
        max_w,
        h,
    ) by {
        if k < a.len() {
            assert((a + b)[k] == a[k]);
        } else {
            assert((a + b)[k] == b[k - a.len()]);
        }
    }
}

/// Joining texts whose pieces fit gives a text whose pieces fit.
pub proof fn lemma_join_pieces(f: FontView, ws: Seq<Seq<char>>, max_w: int, h: int)
    requires
        forall|j: int|
            0 <= j < ws.len() ==> pieces_fit(f, split_nl(#[trigger] ws[j]), max_w, h)
                && drawn_as_itself(f, ws[j]),
        max_w >= 0,
    ensures
        pieces_fit(f, split_nl(join_lines(ws)), max_w, h),
        drawn_as_itself(f, join_lines(ws)),
    decreases ws.len(),
{
    if ws.len() == 0 {
        assert(f.width_sum(Seq::<char>::empty(), h) == 0);
        assert(piece_fits(f, Seq::<char>::empty(), max_w, h));
    } else if ws.len() == 1 {
        assert(ws[0] == ws[0]);
    } else {
        let a = join_lines(ws.drop_last());
        let b = ws.last();
        assert forall|j: int| 0 <= j < ws.drop_last().len() implies pieces_fit(
            f,
            split_nl(#[trigger] ws.drop_last()[j]),
            max_w,
            h,
        ) && drawn_as_itself(f, ws.drop_last()[j]) by {
            assert(ws.drop_last()[j] == ws[j]);
        }
        lemma_join_pieces(f, ws.drop_last(), max_w, h);
        assert(pieces_fit(f, split_nl(b), max_w, h) && drawn_as_itself(f, b)) by {
            assert(b == ws[ws.len() - 1]);
        }
        lemma_split_concat(a, b);
        lemma_pieces_fit_concat(f, split_nl(a), split_nl(b), max_w, h);
        let o = a.push('\n') + b;
        assert(join_lines(ws) == o);
        assert forall|k: int| 0 <= k < o.len() implies (#[trigger] o[k] == '\n' || (f.resolve(
            o[k],
        ) is Some && f.resolve(o[k])->Some_0.0 == o[k])) by {
            if k < a.len() {
                assert(o[k] == a[k]);
            } else if k > a.len() {
                assert(o[k] == b[k - a.len() - 1]);
            }
        }
    }
}

/// A line taken from a piece that fits has a measured width, at most `max_w` unless it is a
/// single character.
proof fn lemma_line_of_piece(f: FontView, x: Seq<char>, max_w: int, h: int)
    requires
        f.wf(),
        max_w >= 0,
        h >= 0,
        piece_fits(f, x, max_w, h),
    ensures
        f.line_width(strip_cr(x), h) is Some,
        f.line_width(strip_cr(x), h)->Some_0 <= max_w || strip_cr(x).len() == 1,
{
    if x.len() > 0 && x.last() == '\r' {
        let y = x.drop_last();
        assert(y.push(x.last()) =~= x);
        lemma_width_sum_push(f, y, x.last(), h);
        assert(f.resolve(x[x.len() - 1]) is Some);
        lemma_char_width_nonneg(f, x.last(), h);
        assert forall|k: int| 0 <= k < y.len() implies (#[trigger] f.resolve(y[k])) is Some by {
            assert(y[k] == x[k]);
        }
        if x.len() == 1 {
            assert(y =~= Seq::<char>::empty());
            assert(f.width_sum(y, h) == 0);
        }
    }
}

/// Every piece of a wrapped text fits, and each of its characters is drawn as itself.
pub proof fn lemma_wrapped_pieces(f: FontView, text: Seq<char>, max_w: int, h: int)
    requires
        f.wf(),
        max_w >= 0,
        h >= 0,
        f.wrapped(text, max_w, h) is Some,
    ensures
        pieces_fit(f, split_nl(f.wrapped(text, max_w, h)->Some_0), max_w, h),
        drawn_as_itself(f, f.wrapped(text, max_w, h)->Some_0),
{
    let ls = lines_of(text);
    let ws = Seq::new(ls.len(), |j: int| f.wrap_line(ls[j], max_w, h));
    assert forall|j: int| 0 <= j < ws.len() implies pieces_fit(
        f,
        split_nl(#[trigger] ws[j]),
        max_w,
        h,
    ) && drawn_as_itself(f, ws[j]) by {
        lemma_wrap_line_pieces(f, ls[j], max_w, h);
    }
    lemma_join_pieces(f, ws, max_w, h);
}

/// The characters of the pieces between line feeds are characters of the text, and none of
/// them is a line feed.
pub proof fn lemma_split_chars(s: Seq<char>)
    ensures
        forall|k: int, i: int|
            0 <= k < split_nl(s).len() && 0 <= i < split_nl(s)[k].len() ==> #[trigger] split_nl(
                s,
            )[k][i] != '\n' && s.contains(split_nl(s)[k][i]),
    decreases s.len(),
{
    if s.len() > 0 {
        let t = s.drop_last();
        let x = s.last();
        lemma_split_chars(t);
        lemma_split_nl_len(t);
        let p = split_nl(t);
        assert forall|k: int, i: int|
            0 <= k < split_nl(s).len() && 0 <= i < split_nl(s)[k].len() implies #[trigger] split_nl(
            s,
        )[k][i] != '\n' && s.contains(split_nl(s)[k][i]) by {
            if k < p.len() && i < p[k].len() {
                assert(split_nl(s)[k][i] == p[k][i]);
                let m = choose|m: int| 0 <= m < t.len() && t[m] == p[k][i];
                assert(s[m] == t[m]);
            } else {
                assert(split_nl(s)[k][i] == x);
                assert(s[s.len() - 1] == x);
            }
        }
    }
}

/// A line that fits and whose characters are drawn as themselves wraps to itself.
pub proof fn lemma_wrap_tight(f: FontView, x: Seq<char>, max_w: int, h: int)
    requires
        f.wf(),
        h >= 0,
        f.all_resolve(x),
        forall|k: int| 0 <= k < x.len() ==> f.resolve(#[trigger] x[k])->Some_0.0 == x[k],
        f.width_sum(x, h) <= max_w,
    ensures
        f.wrap_state(x, max_w, h) == (x, f.width_sum(x, h)),
    decreases x.len(),
{
    if x.len() == 0 {
        assert(x =~= Seq::<char>::empty());
    } else {
        let x0 = x.drop_last();
        lemma_char_width_nonneg(f, x.last(), h);
        assert forall|k: int| 0 <= k < x0.len() implies (#[trigger] f.resolve(x0[k])) is Some
            && f.resolve(x0[k])->Some_0.0 == x0[k] by {
            assert(x0[k] == x[k]);
        }
        lemma_wrap_tight(f, x0, max_w, h);
        assert(x0.push(x.last()) =~= x);
    }
}

/// Wrapping a wrapped text again changes nothing, provided every glyph of it fits in
/// `max_w` on its own, it holds no carriage return just before a line feed, and it does not
/// end in a line feed (the cases in which `str::lines` would not give its pieces back).
pub proof fn lemma_wrap_idempotent(f: FontView, text: Seq<char>, max_w: int, h: int)
    requires
        f.wf(),
        max_w >= 0,
        h >= 0,
        f.wrapped(text, max_w, h) is Some,
        ({
            let o = f.wrapped(text, max_w, h)->Some_0;
            &&& forall|k: int|
                0 <= k < o.len() && #[trigger] o[k] != '\n' ==> f.char_width(o[k], h) <= max_w
            &&& forall|m: int|
                0 <= m < o.len() - 1 ==> !(o[m] == '\r' && #[trigger] o[m + 1] == '\n')
            &&& (o.len() == 0 || o.last() != '\n')
        }),
    ensures
        f.wrapped(f.wrapped(text, max_w, h)->Some_0, max_w, h) == f.wrapped(text, max_w, h),
{
    let o = f.wrapped(text, max_w, h)->Some_0;
    lemma_wrapped_pieces(f, text, max_w, h);
    if o.len() == 0 {
        assert(lines_of(o).len() == 0);
        assert(join_lines(Seq::<Seq<char>>::empty()) == o);
        assert(Seq::new(0, |j: int| f.wrap_line(lines_of(o)[j], max_w, h)) =~= Seq::<
            Seq<char>,
        >::empty());
    } else {
        let p = split_nl(o);
        lemma_split_nl_len(o);
        lemma_split_last_empty(o);
        lemma_split_chars(o);
        assert forall|k: int| 0 <= k < p.len() - 1 implies strip_cr(#[trigger] p[k]) == p[k] by {
            if p[k].len() > 0 && p[k].last() == '\r' {
                lemma_split_cr(o, k);
            }
        }
        assert(lines_of(o) =~= p);
        assert forall|k: int| 0 <= k < p.len() implies f.wrap_line(#[trigger] p[k], max_w, h)
            == p[k] by {
            let x = p[k];
            assert(piece_fits(f, x, max_w, h));
            assert forall|i: int| 0 <= i < x.len() implies f.resolve(#[trigger] x[i])->Some_0.0
                == x[i] by {
                assert(p[k][i] != '\n' && o.contains(p[k][i]));
                let m = choose|m: int| 0 <= m < o.len() && o[m] == x[i];
            }
            if x.len() == 1 {
                assert(x[0] != '\n' && o.contains(x[0]));
                let m = choose|m: int| 0 <= m < o.len() && o[m] == x[0];
                assert(x.drop_last() =~= Seq::<char>::empty());
                assert(f.width_sum(x.drop_last(), h) == 0);
                assert(x.last() == x[0]);
                assert(f.width_sum(x, h) == f.char_width(x[0], h));
            }
            lemma_wrap_tight(f, x, max_w, h);
        }
        assert(Seq::new(p.len(), |j: int| f.wrap_line(lines_of(o)[j], max_w, h)) =~= p);
        assert(f.all_lines_resolve(lines_of(o)));
        lemma_join_split(o);
    }
}

/// Wrapping never makes a line wider than `max_w`, except a line that holds a single
/// character wider than `max_w` on its own.
pub proof fn lemma_wrap_fits(f: FontView, text: Seq<char>, max_w: int, h: int)
    requires
        f.wf(),
        max_w >= 0,
        h >= 0,
        f.wrapped(text, max_w, h) is Some,
    ensures
        ({
            let ls = lines_of(f.wrapped(text, max_w, h)->Some_0);
            forall|k: int|
                0 <= k < ls.len() ==> f.line_width(#[trigger] ls[k], h) is Some && (f.line_width(
                    ls[k],
                    h,
                )->Some_0 <= max_w || ls[k].len() == 1)
        }),
{
    lemma_wrapped_pieces(f, text, max_w, h);
    let o = f.wrapped(text, max_w, h)->Some_0;
    let p = split_nl(o);
    lemma_split_nl_len(o);
    let lo = lines_of(o);
    assert forall|k: int| 0 <= k < lo.len() implies f.line_width(#[trigger] lo[k], h) is Some && (
    f.line_width(lo[k], h)->Some_0 <= max_w || lo[k].len() == 1) by {
        assert(piece_fits(f, p[k], max_w, h));
        lemma_line_of_piece(f, p[k], max_w, h);
        if k < p.len() - 1 {
            assert(lo[k] == strip_cr(p[k]));
        } else {
            assert(lo[k] == p[k]);
            if f.width_sum(p[k], h) <= max_w || p[k].len() == 1 {
            }
        }
    }
}

} // verus!
