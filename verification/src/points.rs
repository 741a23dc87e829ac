//! The SVG point-list parser: `"x1,y1 x2,y2 x3,y3"`.

use vstd::prelude::*;

verus! {

use crate::fixed::fx_ok;
use crate::geom::{Vec2, vec2_ok};
use crate::path::{PathTokenizer, is_ws, spec_next_number};

/// First index at or after `i` that holds no whitespace.
pub open spec fn skip_ws(s: Seq<char>, i: int) -> int
    decreases s.len() - i,
{
    if 0 <= i < s.len() && is_ws(s[i]) {
        skip_ws(s, i + 1)
    } else {
        i
    }
}

/// First index at or after `i` that holds whitespace, or the end.
pub open spec fn scan_token(s: Seq<char>, i: int) -> int
    decreases s.len() - i,
{
    if 0 <= i < s.len() && !is_ws(s[i]) {
        scan_token(s, i + 1)
    } else {
        i
    }
}

/// First comma at or after `a` and before `b`, or `b` when none.
pub open spec fn find_comma(s: Seq<char>, a: int, b: int) -> int
    decreases b - a,
{
    if 0 <= a < b && a < s.len() {
        if s[a] == ',' {
            a
        } else {
            find_comma(s, a + 1, b)
        }
    } else {
        b
    }
}

/// The point encoded by one `x,y` token spanning `s[a..b)`: both halves
/// must scan as whole numbers; anything after a second comma is ignored.
pub open spec fn spec_token_point(s: Seq<char>, a: int, b: int) -> Option<Vec2> {
    let c1 = find_comma(s, a, b);
    if c1 >= b {
        None
    } else {
        let c2 = find_comma(s, c1 + 1, b);
        let (x, ex) = spec_next_number(s, a);
        let (y, ey) = spec_next_number(s, c1 + 1);
        if x is Some && ex == c1 && y is Some && ey == c2 {
            Some(Vec2 { x: x->0, y: y->0 })
        } else {
            None
        }
    }
}

/// The points of a whitespace-separated list of `x,y` pairs; tokens that
/// do not scan as a pair are skipped.
pub open spec fn spec_svg_points(s: Seq<char>, i: int) -> Seq<Vec2>
    decreases s.len() - i,
{
    let j = skip_ws(s, i);
    if j >= s.len() || j < i {
        Seq::empty()
    } else {
        let k = scan_token(s, j);
        let head = match spec_token_point(s, j, k) {
            Some(p) => seq![p],
            None => Seq::empty(),
        };
        if k <= i || k > s.len() {
            head
        } else {
            head + spec_svg_points(s, k)
        }
    }
}

/// Parse an SVG-style point list, `"x1,y1 x2,y2 ..."`, into points.
/// Pairs that do not scan as two numbers are skipped silently.
#[verifier::rlimit(100)]
pub fn parse_svg_points(points_str: &str) -> (pts: Vec<Vec2>)
    ensures
        pts@ == spec_svg_points(points_str@, 0),
        forall|k: int| 0 <= k < pts@.len() ==> vec2_ok(#[trigger] pts@[k]),
{
    let ghost s = points_str@;
    let mut tok = PathTokenizer::new(points_str);
    let n = tok.text_len();
    let mut pts: Vec<Vec2> = Vec::new();
    let mut i: usize = 0;
    while i < n
        invariant
            0 <= i <= n,
            n == s.len(),
            tok.text() == s,
            tok.wf(),
            forall|k: int| 0 <= k < pts@.len() ==> vec2_ok(#[trigger] pts@[k]),
            spec_svg_points(s, 0) == pts@ + spec_svg_points(s, i as int),
        ensures
            spec_svg_points(s, 0) == pts@,
            forall|k: int| 0 <= k < pts@.len() ==> vec2_ok(#[trigger] pts@[k]),
        decreases n - i,
    {
        let ghost ib = i as int;
        // Skip the whitespace before the next token.
        while i < n && ws_at(&tok, i)
            invariant
                0 <= i <= n,
                n == s.len(),
                tok.text() == s,
                tok.wf(),
                skip_ws(s, ib) == skip_ws(s, i as int),
                ib <= i,
            decreases n - i,
        {
            i = i + 1;
        }
        if i >= n {
            proof {
                assert(spec_svg_points(s, ib) =~= Seq::<Vec2>::empty());
                assert(spec_svg_points(s, i as int) =~= Seq::<Vec2>::empty());
                assert(pts@ + Seq::<Vec2>::empty() =~= pts@);
            }
            break ;
        }
        proof {
            assert(skip_ws(s, i as int) == i);
        }
        let j = i;
        // Find the end of the token.
        let mut k = j;
        while k < n && !ws_at(&tok, k)
            invariant
                j <= k <= n,
                n == s.len(),
                tok.text() == s,
                tok.wf(),
                scan_token(s, j as int) == scan_token(s, k as int),
            decreases n - k,
        {
            k = k + 1;
        }
        proof {
            assert(scan_token(s, k as int) == k);
        }
        // Find the first comma inside the token.
        let mut c1 = j;
        while c1 < k && !comma_at(&tok, c1)
            invariant
                j <= c1 <= k,
                k <= n == s.len(),
                tok.text() == s,
                tok.wf(),
                find_comma(s, j as int, k as int) == find_comma(s, c1 as int, k as int),
            decreases k - c1,
        {
            c1 = c1 + 1;
        }
        proof {
            assert(find_comma(s, c1 as int, k as int) == c1);
        }
        if c1 < k {
            // Find the second comma, bounding the y half.
            let mut c2 = c1 + 1;
            while c2 < k && !comma_at(&tok, c2)
                invariant
                    c1 + 1 <= c2 <= k,
                    k <= n == s.len(),
                    tok.text() == s,
                    tok.wf(),
                    find_comma(s, c1 + 1, k as int) == find_comma(s, c2 as int, k as int),
                decreases k - c2,
            {
                c2 = c2 + 1;
            }
            proof {
                assert(find_comma(s, c2 as int, k as int) == c2);
            }
            tok.seek(j);
            let x = tok.next_number();
            let ex = tok.at_pos();
            tok.seek(c1 + 1);
            let y = tok.next_number();
            let ey = tok.at_pos();
            let mut took = false;
            match (x, y) {
                (Some(xv), Some(yv)) => {
                    if ex == c1 && ey == c2 {
                        pts.push(Vec2 { x: xv, y: yv });
                        took = true;
                    }
                },
                _ => {},
            }
            proof {
                if took {
                    assert(spec_token_point(s, j as int, k as int) == Some(pts@.last()));
                    assert(spec_svg_points(s, ib) =~= seq![pts@.last()] + spec_svg_points(
                        s,
                        k as int,
                    ));
                    assert(pts@ =~= pts@.take(pts@.len() - 1) + seq![pts@.last()]);
                    assert(pts@.take(pts@.len() - 1) + (seq![pts@.last()] + spec_svg_points(
                        s,
                        k as int,
                    )) =~= pts@ + spec_svg_points(s, k as int));
                } else {
                    assert(spec_token_point(s, j as int, k as int) is None);
                    assert(spec_svg_points(s, ib) =~= spec_svg_points(s, k as int));
                }
            }
        } else {
            proof {
                assert(spec_token_point(s, j as int, k as int) is None);
                assert(spec_svg_points(s, ib) =~= spec_svg_points(s, k as int));
            }
        }
        i = k;
    }
    pts
}

/// Whether the character at `i` is whitespace.
fn ws_at(tok: &PathTokenizer, i: usize) -> (r: bool)
    requires
        i < tok.text().len(),
    ensures
        r == is_ws(tok.text()[i as int]),
{
    let c = tok.char_at(i);
    c == ' ' || c == '\t' || c == '\n' || c == '\r'
}

/// Whether the character at `i` is a comma.
fn comma_at(tok: &PathTokenizer, i: usize) -> (r: bool)
    requires
        i < tok.text().len(),
    ensures
        r == (tok.text()[i as int] == ','),
{
    tok.char_at(i) == ','
}


} // verus!
