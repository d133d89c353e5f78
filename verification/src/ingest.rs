//! Edge ingestor: parses line-oriented text into raw vertex pairs.
//!
//! A line is first trimmed of leading and trailing ASCII whitespace. A
//! trimmed line starting with `#` is a comment and is skipped. Every other
//! line must split, on the fixed delimiter set (semicolon, comma, space,
//! tab), into exactly two integer tokens; anything else is a fatal parse
//! failure carrying the offending line's content and 1-based number.

use vstd::prelude::*;

use crate::edge_set::EdgeSet;
use crate::edge_set::VertexSet;
use crate::graph::Edge;
use crate::graph::ParseError;
use crate::graph::Vertex;

verus! {

/// ASCII whitespace trimmed from the ends of a line.
pub open spec fn is_ws(b: u8) -> bool {
    b == 32 || b == 9 || b == 10 || b == 13
}

/// The fixed delimiter set: semicolon, comma, space, tab.
pub open spec fn is_delim(b: u8) -> bool {
    b == 59 || b == 44 || b == 32 || b == 9
}

pub open spec fn is_digit(b: u8) -> bool {
    48 <= b <= 57
}

pub open spec fn trim_start(s: Seq<u8>) -> Seq<u8>
    decreases s.len(),
{
    if s.len() > 0 && is_ws(s[0]) {
        trim_start(s.drop_first())
    } else {
        s
    }
}

pub open spec fn trim_end(s: Seq<u8>) -> Seq<u8>
    decreases s.len(),
{
    if s.len() > 0 && is_ws(s.last()) {
        trim_end(s.drop_last())
    } else {
        s
    }
}

/// A line with leading and trailing ASCII whitespace removed.
pub open spec fn trimmed(s: Seq<u8>) -> Seq<u8> {
    trim_end(trim_start(s))
}

/// A comment line: nonempty after trimming and starting with `#`.
pub open spec fn is_comment(s: Seq<u8>) -> bool {
    trimmed(s).len() > 0 && trimmed(s)[0] == 35
}

/// Value of a string of decimal digits, most significant first.
pub open spec fn digits_value(s: Seq<u8>) -> nat
    decreases s.len(),
{
    if s.len() == 0 {
        0
    } else {
        digits_value(s.drop_last()) * 10 + (s.last() - 48) as nat
    }
}

pub open spec fn all_digits(s: Seq<u8>) -> bool {
    forall|i: int| 0 <= i < s.len() ==> is_digit(s[i])
}

/// The digits of an integer token, past an optional leading `+` sign.
pub open spec fn digits_part(s: Seq<u8>) -> Seq<u8> {
    if s.len() > 0 && s[0] == 43 {
        s.drop_first()
    } else {
        s
    }
}

/// A valid non-negative integer token: an optional `+` sign, then at least
/// one digit, denoting a value that fits in `usize`.
pub open spec fn is_int_token(s: Seq<u8>) -> bool {
    let d = digits_part(s);
    d.len() > 0 && all_digits(d) && digits_value(d) <= usize::MAX
}

pub open spec fn token_value(s: Seq<u8>) -> nat {
    digits_value(digits_part(s))
}

/// Index of the first delimiter byte, or `s.len()` if there is none.
pub open spec fn first_delim(s: Seq<u8>) -> int
    decreases s.len(),
{
    if s.len() == 0 {
        0
    } else if is_delim(s[0]) {
        0
    } else {
        1 + first_delim(s.drop_first())
    }
}

pub proof fn lemma_first_delim_props(s: Seq<u8>)
    ensures
        0 <= first_delim(s) <= s.len(),
        forall|j: int| 0 <= j < first_delim(s) ==> !is_delim(s[j]),
        first_delim(s) < s.len() ==> is_delim(s[first_delim(s)]),
    decreases s.len(),
{
    if s.len() > 0 && !is_delim(s[0]) {
        lemma_first_delim_props(s.drop_first());
        assert forall|j: int| 0 <= j < first_delim(s) implies !is_delim(s[j]) by {
            if j > 0 {
                assert(!is_delim(s.drop_first()[j - 1]));
            }
        }
    }
}

pub proof fn lemma_first_delim_at(s: Seq<u8>, k: int)
    requires
        0 <= k <= s.len(),
        forall|j: int| 0 <= j < k ==> !is_delim(s[j]),
        k == s.len() || is_delim(s[k]),
    ensures
        first_delim(s) == k,
    decreases s.len(),
{
    if s.len() > 0 && !is_delim(s[0]) {
        assert forall|j: int| 0 <= j < k - 1 implies !is_delim(s.drop_first()[j]) by {
            assert(!is_delim(s[j + 1]));
        }
        assert(k - 1 == s.drop_first().len() || is_delim(s.drop_first()[k - 1]));
        lemma_first_delim_at(s.drop_first(), k - 1);
    }
}

/// A valid data line, after trimming: exactly one delimiter (so exactly two
/// tokens), each token a valid integer.
pub open spec fn valid_data(t: Seq<u8>) -> bool {
    let p = first_delim(t);
    &&& p < t.len()
    &&& forall|j: int| p < j < t.len() ==> !is_delim(t[j])
    &&& is_int_token(t.subrange(0, p))
    &&& is_int_token(t.subrange(p + 1, t.len() as int))
}

/// Source id carried by a valid data line.
pub open spec fn line_src(t: Seq<u8>) -> nat {
    token_value(t.subrange(0, first_delim(t)))
}

/// Destination id carried by a valid data line.
pub open spec fn line_dst(t: Seq<u8>) -> nat {
    token_value(t.subrange(first_delim(t) + 1, t.len() as int))
}

/// The raw edge carried by a valid data line.
pub open spec fn line_edge(t: Seq<u8>) -> Edge {
    Edge(Vertex(line_src(t) as usize), Vertex(line_dst(t) as usize))
}

/// An acceptable line: a comment, or a valid data line.
pub open spec fn line_ok(l: Seq<u8>) -> bool {
    is_comment(l) || valid_data(trimmed(l))
}

fn is_ws_byte(b: u8) -> (r: bool)
    ensures
        r == is_ws(b),
{
    b == 32 || b == 9 || b == 10 || b == 13
}

fn is_delim_byte(b: u8) -> (r: bool)
    ensures
        r == is_delim(b),
{
    b == 59 || b == 44 || b == 32 || b == 9
}

proof fn lemma_trim_start_skip(s: Seq<u8>, a: int)
    requires
        0 <= a <= s.len(),
        forall|j: int| 0 <= j < a ==> is_ws(s[j]),
        a == s.len() || !is_ws(s[a]),
    ensures
        trim_start(s) == s.skip(a),
    decreases a,
{
    if a == 0 {
        assert(s.skip(0) =~= s);
    } else {
        assert(is_ws(s[0]));
        assert forall|j: int| 0 <= j < a - 1 implies is_ws(s.drop_first()[j]) by {
            assert(is_ws(s[j + 1]));
        }
        lemma_trim_start_skip(s.drop_first(), a - 1);
        assert(s.drop_first().skip(a - 1) =~= s.skip(a));
    }
}

proof fn lemma_trim_end_take(s: Seq<u8>, b: int)
    requires
        0 <= b <= s.len(),
        forall|j: int| b <= j < s.len() ==> is_ws(s[j]),
        b == 0 || !is_ws(s[b - 1]),
    ensures
        trim_end(s) == s.take(b),
    decreases s.len() - b,
{
    if b == s.len() {
        assert(s.take(b) =~= s);
    } else {
        assert(is_ws(s.last()));
        lemma_trim_end_take(s.drop_last(), b);
        assert(s.drop_last().take(b) =~= s.take(b));
    }
}

/// Bounds `(a, b)` of the trimmed portion of `line`.
fn trim_range(line: &Vec<u8>) -> (r: (usize, usize))
    ensures
        r.0 <= r.1 <= line@.len(),
        trimmed(line@) == line@.subrange(r.0 as int, r.1 as int),
{
    let n = line.len();
    let mut a: usize = 0;
    while a < n && is_ws_byte(line[a])
        invariant
            a <= n,
            n == line@.len(),
            forall|j: int| 0 <= j < a ==> is_ws(line@[j]),
        decreases n - a,
    {
        a += 1;
    }
    let mut b: usize = n;
    while b > a && is_ws_byte(line[b - 1])
        invariant
            a <= b <= n,
            n == line@.len(),
            forall|j: int| b <= j < n ==> is_ws(line@[j]),
        decreases b,
    {
        b -= 1;
    }
    proof {
        lemma_trim_start_skip(line@, a as int);
        let u = line@.skip(a as int);
        assert forall|j: int| b - a <= j < u.len() implies is_ws(u[j]) by {
            assert(is_ws(line@[a + j]));
        }
        assert(b - a == 0 || !is_ws(u[b - a - 1]));
        lemma_trim_end_take(u, b - a);
        assert(u.take(b - a) =~= line@.subrange(a as int, b as int));
    }
    (a, b)
}

proof fn lemma_digits_value_mono(s: Seq<u8>, i: int)
    requires
        0 <= i <= s.len(),
    ensures
        digits_value(s.take(i)) <= digits_value(s),
    decreases s.len() - i,
{
    if i < s.len() {
        lemma_digits_value_mono(s.drop_last(), i);
        assert(s.drop_last().take(i) =~= s.take(i));
        assert(digits_value(s.drop_last()) * 10 >= digits_value(s.drop_last()));
    } else {
        assert(s.take(i) =~= s);
    }
}

/// Parses the token occupying `line[lo..hi]` as a non-negative integer.
/// Returns `None` exactly when the token is not a valid integer or its
/// value does not fit in `usize`.
fn parse_int_token(line: &Vec<u8>, lo: usize, hi: usize) -> (r: Option<usize>)
    requires
        lo <= hi <= line@.len(),
    ensures
        r is Some <==> is_int_token(line@.subrange(lo as int, hi as int)),
        r is Some ==> r.unwrap() as nat == token_value(line@.subrange(lo as int, hi as int)),
{
    let ghost t = line@.subrange(lo as int, hi as int);
    if lo == hi {
        return None;
    }
    let start: usize = if line[lo] == 43 {
        lo + 1
    } else {
        lo
    };
    proof {
        assert(digits_part(t) =~= line@.subrange(start as int, hi as int));
    }
    let ghost d = line@.subrange(start as int, hi as int);
    if start == hi {
        // a bare sign with no digits
        return None;
    }
    let mut acc: usize = 0;
    let mut i: usize = start;
    while i < hi
        invariant
            lo <= start <= i <= hi <= line@.len(),
            t == line@.subrange(lo as int, hi as int),
            d == digits_part(t),
            d == line@.subrange(start as int, hi as int),
            forall|j: int| start <= j < i ==> is_digit(line@[j]),
            acc as nat == digits_value(line@.subrange(start as int, i as int)),
        decreases hi - i,
    {
        let c = line[i];
        if !(48 <= c && c <= 57) {
            proof {
                assert(d[i - start] == line@[i as int]);
                assert(!all_digits(d));
            }
            return None;
        }
        let digit = (c - 48) as usize;
        let next = match acc.checked_mul(10) {
            Some(x) => x.checked_add(digit),
            None => None,
        };
        proof {
            assert(line@.subrange(start as int, i + 1).drop_last() =~= line@.subrange(
                start as int,
                i as int,
            ));
            assert(digits_value(line@.subrange(start as int, i + 1)) == acc * 10 + digit);
        }
        match next {
            Some(v) => {
                acc = v;
            },
            None => {
                // the value exceeds usize::MAX, so the token is rejected
                proof {
                    if is_int_token(t) {
                        lemma_digits_value_mono(d, i + 1 - start);
                        assert(d.take(i + 1 - start) =~= line@.subrange(start as int, i + 1));
                        assert(digits_value(d) >= acc * 10 + digit);
                        assert(acc * 10 + digit > usize::MAX);
                    }
                }
                return None;
            },
        }
        i += 1;
    }
    proof {
        assert(line@.subrange(start as int, hi as int) =~= d);
        assert forall|j: int| 0 <= j < d.len() implies is_digit(d[j]) by {
            assert(d[j] == line@[start + j]);
        }
    }
    Some(acc)
}

/// Parses the trimmed portion `line[lo..hi]` as a data line: exactly two
/// integer tokens separated by one delimiter.
fn parse_data_line(line: &Vec<u8>, lo: usize, hi: usize) -> (r: Option<(usize, usize)>)
    requires
        lo <= hi <= line@.len(),
    ensures
        r is Some <==> valid_data(line@.subrange(lo as int, hi as int)),
        r is Some ==> r.unwrap().0 as nat == line_src(line@.subrange(lo as int, hi as int)),
        r is Some ==> r.unwrap().1 as nat == line_dst(line@.subrange(lo as int, hi as int)),
{
    let ghost t = line@.subrange(lo as int, hi as int);
    let mut p: usize = lo;
    while p < hi && !is_delim_byte(line[p])
        invariant
            lo <= p <= hi <= line@.len(),
            forall|j: int| lo <= j < p ==> !is_delim(line@[j]),
        decreases hi - p,
    {
        p += 1;
    }
    proof {
        assert forall|j: int| 0 <= j < p - lo implies !is_delim(t[j]) by {
            assert(t[j] == line@[lo + j]);
        }
        if p < hi {
            assert(t[p - lo] == line@[p as int]);
        }
        lemma_first_delim_at(t, p - lo);
    }
    if p == hi {
        // no delimiter: a single token, not two
        return None;
    }
    let mut q: usize = p + 1;
    while q < hi && !is_delim_byte(line[q])
        invariant
            lo < p + 1 <= q <= hi <= line@.len(),
            forall|j: int| p < j < q ==> !is_delim(line@[j]),
        decreases hi - q,
    {
        q += 1;
    }
    if q < hi {
        // a second delimiter: three or more tokens
        proof {
            assert(t[q - lo] == line@[q as int]);
        }
        return None;
    }
    proof {
        assert forall|j: int| p - lo < j < t.len() implies !is_delim(t[j]) by {
            assert(t[j] == line@[lo + j]);
        }
        assert(t.subrange(0, p - lo) =~= line@.subrange(lo as int, p as int));
        assert(t.subrange(p - lo + 1, t.len() as int) =~= line@.subrange(p + 1, hi as int));
    }
    let a = parse_int_token(line, lo, p);
    let b = parse_int_token(line, p + 1, hi);
    match (a, b) {
        (Some(x), Some(y)) => Some((x, y)),
        _ => None,
    }
}

/// Classification of one raw input line.
pub enum LineResult {
    /// The line is a comment and carries no edge.
    Comment,
    /// The line carries a (source, destination) pair.
    Data(usize, usize),
    /// The line is malformed: wrong token count or a non-integer token.
    Malformed,
}

/// Classifies one raw input line: comment, data pair, or malformed.
pub fn parse_line(line: &Vec<u8>) -> (r: LineResult)
    ensures
        is_comment(line@) ==> r is Comment,
        !is_comment(line@) && valid_data(trimmed(line@)) ==> r == LineResult::Data(
            line_src(trimmed(line@)) as usize,
            line_dst(trimmed(line@)) as usize,
        ),
        !is_comment(line@) && !valid_data(trimmed(line@)) ==> r is Malformed,
{
    let (a, b) = trim_range(line);
    if a < b && line[a] == 35 {
        proof {
            assert(trimmed(line@)[0] == line@[a as int]);
        }
        return LineResult::Comment;
    }
    proof {
        if a < b {
            assert(trimmed(line@)[0] == line@[a as int]);
        }
        assert(!is_comment(line@));
    }
    match parse_data_line(line, a, b) {
        Some((s, d)) => LineResult::Data(s, d),
        None => LineResult::Malformed,
    }
}

/// The byte sequences of a sequence of owned lines.
pub open spec fn line_views(lines: Seq<Vec<u8>>) -> Seq<Seq<u8>> {
    lines.map_values(|l: Vec<u8>| l@)
}

/// Line `i` carries an edge: it is neither a comment nor malformed.
pub open spec fn data_at(lv: Seq<Seq<u8>>, i: int) -> bool {
    !is_comment(lv[i]) && valid_data(trimmed(lv[i]))
}

/// The edge carried by data line `i`.
pub open spec fn edge_at(lv: Seq<Seq<u8>>, i: int) -> Edge {
    line_edge(trimmed(lv[i]))
}

/// Membership in the raw edge set built from the first `k` lines: the edges
/// of the data lines, and in undirected mode also their reversals.
pub open spec fn raw_edge_mem(lv: Seq<Seq<u8>>, k: int, undirected: bool, e: Edge) -> bool {
    exists|i: int|
        0 <= i < k && #[trigger] data_at(lv, i) && (e == edge_at(lv, i) || (undirected && e
            == edge_at(lv, i).spec_rev()))
}

/// Membership in the vertex set built from the first `k` lines: every id
/// that occurs as an endpoint of a data line.
pub open spec fn raw_vertex_mem(lv: Seq<Seq<u8>>, k: int, v: Vertex) -> bool {
    exists|i: int|
        0 <= i < k && #[trigger] data_at(lv, i) && (v.0 as nat == line_src(trimmed(lv[i])) || v.0
            as nat == line_dst(trimmed(lv[i])))
}

/// The first `k` lines are all acceptable.
pub open spec fn lines_ok(lv: Seq<Seq<u8>>, k: int) -> bool {
    forall|i: int| 0 <= i < k ==> line_ok(lv[i])
}

fn copy_bytes(v: &Vec<u8>) -> (r: Vec<u8>)
    ensures
        r@ == v@,
{
    let mut out: Vec<u8> = Vec::new();
    let mut i: usize = 0;
    while i < v.len()
        invariant
            i <= v@.len(),
            out@ == v@.take(i as int),
        decreases v@.len() - i,
    {
        out.push(v[i]);
        proof {
            assert(v@.take(i + 1) =~= v@.take(i as int).push(v@[i as int]));
        }
        i += 1;
    }
    proof {
        assert(v@.take(v@.len() as int) =~= v@);
    }
    out
}

/// Everything the ingestor produces: the vertex set, the raw edge set, and
/// the extreme ids seen. `min` is `usize::MAX` and `max` is `0` when no
/// data line occurred.
pub struct Ingested {
    pub vertices: VertexSet,
    pub edges: EdgeSet,
    pub min: usize,
    pub max: usize,
}

/// Parses all lines. Returns the vertex set, the raw edge set (with the
/// symmetric closure in undirected mode) and the minimum and maximum vertex
/// id, or the first malformed line as a [`ParseError`].
pub fn ingest(lines: &Vec<Vec<u8>>, undirected: bool) -> (r: Result<Ingested, ParseError>)
    ensures
        r is Err <==> !lines_ok(line_views(lines@), lines@.len() as int),
        r matches Err(pe) ==> 1 <= pe.line_number <= lines@.len() && !line_ok(
            line_views(lines@)[pe.line_number - 1],
        ) && lines_ok(line_views(lines@), pe.line_number - 1) && pe.line@ == line_views(lines@)[pe.line_number - 1],
        r matches Ok(g) ==> {
            let lv = line_views(lines@);
            let k = lv.len() as int;
            &&& g.edges.wf()
            &&& g.vertices.wf()
            &&& forall|e: Edge| g.edges@.contains(e) <==> raw_edge_mem(lv, k, undirected, e)
            &&& forall|v: Vertex| g.vertices@.contains(v) <==> raw_vertex_mem(lv, k, v)
            &&& (g.vertices@.len() == 0 ==> g.min == usize::MAX && g.max == 0)
            &&& (g.vertices@.len() > 0 ==> g.vertices@.contains(Vertex(g.min))
                && g.vertices@.contains(Vertex(g.max)))
            &&& forall|v: Vertex| g.vertices@.contains(v) ==> g.min <= v.0 && v.0 <= g.max
        },
{
    let ghost lv = line_views(lines@);
    let mut edges = EdgeSet::new();
    let mut vertices = VertexSet::new();
    let mut min: usize = usize::MAX;
    let mut max: usize = 0;
    let mut i: usize = 0;
    while i < lines.len()
        invariant
            i <= lines@.len(),
            lv == line_views(lines@),
            lv.len() == lines@.len(),
            edges.wf(),
            vertices.wf(),
            lines_ok(lv, i as int),
            forall|e: Edge| edges@.contains(e) <==> raw_edge_mem(lv, i as int, undirected, e),
            forall|v: Vertex| vertices@.contains(v) <==> raw_vertex_mem(lv, i as int, v),
            vertices@.len() == 0 ==> min == usize::MAX && max == 0,
            vertices@.len() > 0 ==> vertices@.contains(Vertex(min)) && vertices@.contains(
                Vertex(max),
            ),
            forall|v: Vertex| vertices@.contains(v) ==> min <= v.0 && v.0 <= max,
        decreases lines@.len() - i,
    {
        let line = &lines[i];
        proof {
            assert(lv[i as int] == line@);
        }
        match parse_line(line) {
            LineResult::Comment => {
                proof {
                    assert(is_comment(lv[i as int]));
                    assert forall|e: Edge|
                        raw_edge_mem(lv, i + 1, undirected, e) implies raw_edge_mem(
                        lv,
                        i as int,
                        undirected,
                        e,
                    ) by {
                        let w = choose|w: int|
                            0 <= w < i + 1 && #[trigger] data_at(lv, w) && (e == edge_at(lv, w) || (
                            undirected && e == edge_at(lv, w).spec_rev()));
                        assert(w < i);
                    }
                    assert forall|v: Vertex| raw_vertex_mem(lv, i + 1, v) implies raw_vertex_mem(
                        lv,
                        i as int,
                        v,
                    ) by {
                        let w = choose|w: int|
                            0 <= w < i + 1 && #[trigger] data_at(lv, w) && (v.0 as nat == line_src(
                                trimmed(lv[w]),
                            ) || v.0 as nat == line_dst(trimmed(lv[w])));
                        assert(w < i);
                    }
                }
            },
            LineResult::Malformed => {
                proof {
                    assert(!line_ok(lv[i as int]));
                }
                let content = copy_bytes(line);
                return Err(ParseError { line_number: i + 1, line: content });
            },
            LineResult::Data(s, d) => {
                proof {
                    assert(data_at(lv, i as int));
                    assert(s as nat == line_src(trimmed(lv[i as int])));
                    assert(d as nat == line_dst(trimmed(lv[i as int])));
                }
                vertices.insert(Vertex(s));
                vertices.insert(Vertex(d));
                if s < min {
                    min = s;
                }
                if d < min {
                    min = d;
                }
                if s > max {
                    max = s;
                }
                if d > max {
                    max = d;
                }
                let e = Edge(Vertex(s), Vertex(d));
                edges.insert(e);
                if undirected {
                    edges.insert(e.rev());
                }
                proof {
                    assert(e == edge_at(lv, i as int));
                    assert forall|x: Edge| edges@.contains(x) implies raw_edge_mem(
                        lv,
                        i + 1,
                        undirected,
                        x,
                    ) by {
                        if x == e || (undirected && x == e.spec_rev()) {
                            assert(data_at(lv, i as int));
                        } else {
                            assert(raw_edge_mem(lv, i as int, undirected, x));
                            let w = choose|w: int|
                                0 <= w < i && #[trigger] data_at(lv, w) && (x == edge_at(lv, w) || (
                                undirected && x == edge_at(lv, w).spec_rev()));
                            assert(0 <= w < i + 1);
                        }
                    }
                    assert forall|x: Edge| raw_edge_mem(lv, i + 1, undirected, x) implies edges@.contains(
                        x,
                    ) by {
                        let w = choose|w: int|
                            0 <= w < i + 1 && #[trigger] data_at(lv, w) && (x == edge_at(lv, w) || (
                            undirected && x == edge_at(lv, w).spec_rev()));
                        if w < i {
                            assert(raw_edge_mem(lv, i as int, undirected, x));
                        }
                    }
                    assert forall|x: Vertex| vertices@.contains(x) implies raw_vertex_mem(
                        lv,
                        i + 1,
                        x,
                    ) by {
                        if x == Vertex(s) || x == Vertex(d) {
                            assert(data_at(lv, i as int));
                        } else {
                            assert(raw_vertex_mem(lv, i as int, x));
                            let w = choose|w: int|
                                0 <= w < i && #[trigger] data_at(lv, w) && (x.0 as nat == line_src(
                                    trimmed(lv[w]),
                                ) || x.0 as nat == line_dst(trimmed(lv[w])));
                            assert(0 <= w < i + 1);
                        }
                    }
                    assert forall|x: Vertex| raw_vertex_mem(lv, i + 1, x) implies vertices@.contains(
                        x,
                    ) by {
                        let w = choose|w: int|
                            0 <= w < i + 1 && #[trigger] data_at(lv, w) && (x.0 as nat == line_src(
                                trimmed(lv[w]),
                            ) || x.0 as nat == line_dst(trimmed(lv[w])));
                        if w < i {
                            assert(raw_vertex_mem(lv, i as int, x));
                        }
                    }
                    assert(vertices@.contains(Vertex(s)));
                    assert(vertices@.contains(Vertex(d)));
                }
            },
        }
        i += 1;
    }
    Ok(Ingested { vertices, edges, min, max })
}

} // verus!
