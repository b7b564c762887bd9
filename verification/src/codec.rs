//! The persistence adapter: a workflow is rendered as a JSON document
//! (object with `id`, `name`, `nodes`, `connections`), and read back from
//! exactly that rendering. The format is fixed: the serializer defines
//! it, the parser accepts it and rejects everything else with a
//! descriptive error, and reading back what was written restores the
//! workflow field for field.

use vstd::prelude::*;
use crate::model::Coord;
use crate::model::ConnV;
use crate::model::KindV;
use crate::model::NodeV;
use crate::model::WorkflowV;

verus! {

// ---------------------------------------------------------------------
// The serialized form
// ---------------------------------------------------------------------

/// String escaping: a quote or backslash is preceded by a backslash;
/// every other character stands for itself.
pub open spec fn esc(s: Seq<char>) -> Seq<char>
    decreases s.len(),
{
    if s.len() == 0 {
        Seq::empty()
    } else if s[0] == '"' || s[0] == '\\' {
        seq!['\\', s[0]] + esc(s.skip(1))
    } else {
        seq![s[0]] + esc(s.skip(1))
    }
}

/// A quoted, escaped string token.
pub open spec fn ser_str(s: Seq<char>) -> Seq<char> {
    seq!['"'] + esc(s) + seq!['"']
}

/// The character for one decimal digit.
pub open spec fn digit_char(d: int) -> char {
    ((d + 48) as u8) as char
}

/// The decimal digits of a non-negative number, most significant first.
pub open spec fn digits(n: nat) -> Seq<char>
    decreases n,
{
    if n < 10 {
        seq![digit_char(n as int)]
    } else {
        digits(n / 10) + seq![digit_char((n % 10) as int)]
    }
}

/// A coordinate token: a decimal integer, or `null` for the degenerate
/// incomparable coordinate (mirroring how non-finite numbers are dropped
/// from JSON).
pub open spec fn ser_coord(c: Coord) -> Seq<char> {
    match c {
        Coord::Nan => "null"@,
        Coord::Finite(v) => if v >= 0 {
            digits(v as nat)
        } else {
            seq!['-'] + digits((-(v as int)) as nat)
        },
    }
}

/// A position object.
pub open spec fn ser_position(x: Coord, y: Coord) -> Seq<char> {
    "{\"x\": "@ + ser_coord(x) + ", \"y\": "@ + ser_coord(y) + "}"@
}

/// The node-type tag of a payload.
pub open spec fn kind_tag(k: KindV) -> Seq<char> {
    match k {
        KindV::Variable { .. } => "variable"@,
        KindV::Print { .. } => "print"@,
        KindV::Other { tag } => tag,
    }
}

/// The properties object of a payload.
pub open spec fn ser_props(k: KindV) -> Seq<char> {
    match k {
        KindV::Variable { name, value } => "{\"name\": "@ + ser_str(name) + ", \"value\": "@
            + ser_str(value) + "}"@,
        KindV::Print { message } => "{\"message\": "@ + ser_str(message) + "}"@,
        KindV::Other { .. } => "{}"@,
    }
}

/// One node object.
pub open spec fn ser_node(n: NodeV) -> Seq<char> {
    "{\"id\": "@ + ser_str(n.id) + ", \"position\": "@ + ser_position(n.position.x, n.position.y)
        + ", \"node_type\": "@ + ser_str(kind_tag(n.kind)) + ", \"properties\": "@ + ser_props(
        n.kind,
    ) + "}"@
}

/// One connection object.
pub open spec fn ser_conn(c: ConnV) -> Seq<char> {
    "{\"id\": "@ + ser_str(c.id) + ", \"source_node\": "@ + ser_str(c.source_node)
        + ", \"target_node\": "@ + ser_str(c.target_node) + "}"@
}

/// A comma-separated list of already-rendered items.
pub open spec fn ser_list(items: Seq<Seq<char>>) -> Seq<char>
    decreases items.len(),
{
    if items.len() == 0 {
        Seq::empty()
    } else if items.len() == 1 {
        items[0]
    } else {
        items[0] + ", "@ + ser_list(items.skip(1))
    }
}

/// A bracketed array of already-rendered items.
pub open spec fn ser_array(items: Seq<Seq<char>>) -> Seq<char> {
    seq!['['] + ser_list(items) + seq![']']
}

/// The whole document, pretty-printed one top-level field per line.
pub open spec fn ser_workflow(w: WorkflowV) -> Seq<char> {
    "{\n  \"id\": "@ + ser_str(w.id) + ",\n  \"name\": "@ + ser_str(w.name) + ",\n  \"nodes\": "@
        + ser_array(w.nodes.map_values(|n: NodeV| ser_node(n))) + ",\n  \"connections\": "@
        + ser_array(w.connections.map_values(|c: ConnV| ser_conn(c))) + "\n}"@
}

// ---------------------------------------------------------------------
// The parser, as a family of spec functions over the input characters
// ---------------------------------------------------------------------

/// Consumes the exact literal `lit` at `i`, if present.
pub open spec fn p_lit(s: Seq<char>, i: int, lit: Seq<char>) -> Option<int> {
    if 0 <= i && i + lit.len() <= s.len() && s.subrange(i, i + lit.len()) == lit {
        Some(i + lit.len())
    } else {
        None
    }
}

/// Consumes the body of a quoted string after the opening quote, undoing
/// the escaping, up to and including the closing quote.
pub open spec fn p_str_body(s: Seq<char>, i: int) -> Option<(Seq<char>, int)>
    decreases s.len() - i,
{
    if i < 0 || i >= s.len() {
        None
    } else if s[i] == '"' {
        Some((Seq::empty(), i + 1))
    } else if s[i] == '\\' {
        if i + 1 < s.len() {
            match p_str_body(s, i + 2) {
                Some((t, j)) => Some((seq![s[i + 1]] + t, j)),
                None => None,
            }
        } else {
            None
        }
    } else {
        match p_str_body(s, i + 1) {
            Some((t, j)) => Some((seq![s[i]] + t, j)),
            None => None,
        }
    }
}

/// Consumes a quoted string token.
pub open spec fn p_string(s: Seq<char>, i: int) -> Option<(Seq<char>, int)> {
    if 0 <= i < s.len() && s[i] == '"' {
        p_str_body(s, i + 1)
    } else {
        None
    }
}

pub open spec fn is_digit(c: char) -> bool {
    '0' <= c && c <= '9'
}

/// The end of the run of digits starting at `i`.
pub open spec fn digits_end(s: Seq<char>, i: int) -> int
    decreases s.len() - i,
{
    if 0 <= i < s.len() && is_digit(s[i]) {
        digits_end(s, i + 1)
    } else {
        i
    }
}

/// The value of a digit run, most significant first.
pub open spec fn dval(ds: Seq<char>) -> int
    decreases ds.len(),
{
    if ds.len() == 0 {
        0
    } else {
        dval(ds.drop_last()) * 10 + (ds.last() as int - 48)
    }
}

/// Consumes a coordinate token: `null`, or an optionally signed decimal
/// integer that fits a 64-bit value.
pub open spec fn p_coord(s: Seq<char>, i: int) -> Option<(Coord, int)> {
    if p_lit(s, i, "null"@) is Some {
        Some((Coord::Nan, p_lit(s, i, "null"@)->0))
    } else {
        let neg = 0 <= i < s.len() && s[i] == '-';
        let j = if neg {
            i + 1
        } else {
            i
        };
        let e = digits_end(s, j);
        if e == j {
            None
        } else {
            let m = dval(s.subrange(j, e));
            if neg {
                if m <= i64::MAX as int + 1 {
                    Some((Coord::Finite((-m) as i64), e))
                } else {
                    None
                }
            } else {
                if m <= i64::MAX as int {
                    Some((Coord::Finite(m as i64), e))
                } else {
                    None
                }
            }
        }
    }
}

/// Consumes a position object.
pub open spec fn p_position(s: Seq<char>, i: int) -> Option<((Coord, Coord), int)> {
    match p_lit(s, i, "{\"x\": "@) {
        Some(j1) => match p_coord(s, j1) {
            Some((x, j2)) => match p_lit(s, j2, ", \"y\": "@) {
                Some(j3) => match p_coord(s, j3) {
                    Some((y, j4)) => match p_lit(s, j4, "}"@) {
                        Some(j5) => Some(((x, y), j5)),
                        None => None,
                    },
                    None => None,
                },
                None => None,
            },
            None => None,
        },
        None => None,
    }
}

/// Consumes a properties object for the given node-type tag, yielding
/// the typed payload.
pub open spec fn p_props(s: Seq<char>, i: int, tag: Seq<char>) -> Option<(KindV, int)> {
    if tag == "variable"@ {
        match p_lit(s, i, "{\"name\": "@) {
            Some(j1) => match p_string(s, j1) {
                Some((name, j2)) => match p_lit(s, j2, ", \"value\": "@) {
                    Some(j3) => match p_string(s, j3) {
                        Some((value, j4)) => match p_lit(s, j4, "}"@) {
                            Some(j5) => Some((KindV::Variable { name, value }, j5)),
                            None => None,
                        },
                        None => None,
                    },
                    None => None,
                },
                None => None,
            },
            None => None,
        }
    } else if tag == "print"@ {
        match p_lit(s, i, "{\"message\": "@) {
            Some(j1) => match p_string(s, j1) {
                Some((message, j2)) => match p_lit(s, j2, "}"@) {
                    Some(j3) => Some((KindV::Print { message }, j3)),
                    None => None,
                },
                None => None,
            },
            None => None,
        }
    } else {
        match p_lit(s, i, "{}"@) {
            Some(j1) => Some((KindV::Other { tag }, j1)),
            None => None,
        }
    }
}

/// Consumes one node object.
pub open spec fn p_node(s: Seq<char>, i: int) -> Option<(NodeV, int)> {
    match p_lit(s, i, "{\"id\": "@) {
        Some(j1) => match p_string(s, j1) {
            Some((id, j2)) => match p_lit(s, j2, ", \"position\": "@) {
                Some(j3) => match p_position(s, j3) {
                    Some(((x, y), j4)) => match p_lit(s, j4, ", \"node_type\": "@) {
                        Some(j5) => match p_string(s, j5) {
                            Some((tag, j6)) => match p_lit(s, j6, ", \"properties\": "@) {
                                Some(j7) => match p_props(s, j7, tag) {
                                    Some((kind, j8)) => match p_lit(s, j8, "}"@) {
                                        Some(j9) => Some(
                                            (
                                                NodeV {
                                                    id,
                                                    position: crate::model::Position { x, y },
                                                    kind,
                                                },
                                                j9,
                                            ),
                                        ),
                                        None => None,
                                    },
                                    None => None,
                                },
                                None => None,
                            },
                            None => None,
                        },
                        None => None,
                    },
                    None => None,
                },
                None => None,
            },
            None => None,
        },
        None => None,
    }
}

/// Consumes one connection object.
pub open spec fn p_conn(s: Seq<char>, i: int) -> Option<(ConnV, int)> {
    match p_lit(s, i, "{\"id\": "@) {
        Some(j1) => match p_string(s, j1) {
            Some((id, j2)) => match p_lit(s, j2, ", \"source_node\": "@) {
                Some(j3) => match p_string(s, j3) {
                    Some((source_node, j4)) => match p_lit(s, j4, ", \"target_node\": "@) {
                        Some(j5) => match p_string(s, j5) {
                            Some((target_node, j6)) => match p_lit(s, j6, "}"@) {
                                Some(j7) => Some((ConnV { id, source_node, target_node }, j7)),
                                None => None,
                            },
                            None => None,
                        },
                        None => None,
                    },
                    None => None,
                },
                None => None,
            },
            None => None,
        },
        None => None,
    }
}

/// Consumes the rest of a non-empty node list: items separated by a
/// comma and a space, then the closing bracket.
pub open spec fn p_node_list(s: Seq<char>, i: int) -> Option<(Seq<NodeV>, int)>
    decreases s.len() - i,
{
    match p_node(s, i) {
        Some((n, j)) => if p_lit(s, j, "]"@) is Some {
            Some((seq![n], p_lit(s, j, "]"@)->0))
        } else {
            match p_lit(s, j, ", "@) {
                Some(j2) => if i < j2 {
                    match p_node_list(s, j2) {
                        Some((rest, k)) => Some((seq![n] + rest, k)),
                        None => None,
                    }
                } else {
                    None
                },
                None => None,
            }
        },
        None => None,
    }
}

/// Consumes a node array.
pub open spec fn p_nodes(s: Seq<char>, i: int) -> Option<(Seq<NodeV>, int)> {
    if p_lit(s, i, "[]"@) is Some {
        Some((Seq::empty(), p_lit(s, i, "[]"@)->0))
    } else {
        match p_lit(s, i, "["@) {
            Some(j) => p_node_list(s, j),
            None => None,
        }
    }
}

/// Consumes the rest of a non-empty connection list.
pub open spec fn p_conn_list(s: Seq<char>, i: int) -> Option<(Seq<ConnV>, int)>
    decreases s.len() - i,
{
    match p_conn(s, i) {
        Some((c, j)) => if p_lit(s, j, "]"@) is Some {
            Some((seq![c], p_lit(s, j, "]"@)->0))
        } else {
            match p_lit(s, j, ", "@) {
                Some(j2) => if i < j2 {
                    match p_conn_list(s, j2) {
                        Some((rest, k)) => Some((seq![c] + rest, k)),
                        None => None,
                    }
                } else {
                    None
                },
                None => None,
            }
        },
        None => None,
    }
}

/// Consumes a connection array.
pub open spec fn p_conns(s: Seq<char>, i: int) -> Option<(Seq<ConnV>, int)> {
    if p_lit(s, i, "[]"@) is Some {
        Some((Seq::empty(), p_lit(s, i, "[]"@)->0))
    } else {
        match p_lit(s, i, "["@) {
            Some(j) => p_conn_list(s, j),
            None => None,
        }
    }
}

/// Parses a whole document. The entire input must be consumed.
pub open spec fn p_workflow(s: Seq<char>) -> Option<WorkflowV> {
    match p_lit(s, 0, "{\n  \"id\": "@) {
        Some(j1) => match p_string(s, j1) {
            Some((id, j2)) => match p_lit(s, j2, ",\n  \"name\": "@) {
                Some(j3) => match p_string(s, j3) {
                    Some((name, j4)) => match p_lit(s, j4, ",\n  \"nodes\": "@) {
                        Some(j5) => match p_nodes(s, j5) {
                            Some((nodes, j6)) => match p_lit(s, j6, ",\n  \"connections\": "@) {
                                Some(j7) => match p_conns(s, j7) {
                                    Some((connections, j8)) => match p_lit(s, j8, "\n}"@) {
                                        Some(j9) => if j9 == s.len() {
                                            Some(WorkflowV { id, name, nodes, connections })
                                        } else {
                                            None
                                        },
                                        None => None,
                                    },
                                    None => None,
                                },
                                None => None,
                            },
                            None => None,
                        },
                        None => None,
                    },
                    None => None,
                },
                None => None,
            },
            None => None,
        },
        None => None,
    }
}

// ---------------------------------------------------------------------
// Completeness: the parser consumes what the serializer wrote
// ---------------------------------------------------------------------

/// Token `t` stands in `s` at position `i`.
pub open spec fn at(s: Seq<char>, i: int, t: Seq<char>) -> bool {
    0 <= i && i + t.len() <= s.len() && s.subrange(i, i + t.len()) == t
}

proof fn lemma_at_split(s: Seq<char>, i: int, a: Seq<char>, b: Seq<char>)
    requires
        at(s, i, a + b),
    ensures
        at(s, i, a),
        at(s, i + a.len(), b),
{
    assert forall|k: int| 0 <= k < a.len() implies s.subrange(i, i + a.len())[k] == a[k] by {
        assert((a + b)[k] == a[k]);
        assert(s.subrange(i, i + (a + b).len())[k] == s[i + k]);
    }
    assert(s.subrange(i, i + a.len()) =~= a);
    assert forall|k: int|
        0 <= k < b.len() implies s.subrange(i + a.len(), i + a.len() + b.len())[k] == b[k] by {
        assert((a + b)[a.len() + k] == b[k]);
        assert(s.subrange(i, i + (a + b).len())[a.len() + k] == s[i + a.len() + k]);
        assert(s.subrange(i + a.len(), i + a.len() + b.len())[k] == s[i + a.len() + k]);
    }
    assert(s.subrange(i + a.len(), i + a.len() + b.len()) =~= b);
}

/// The character a one-character token stands for.
proof fn lemma_at_char(s: Seq<char>, i: int, t: Seq<char>, k: int)
    requires
        at(s, i, t),
        0 <= k < t.len(),
    ensures
        s[i + k] == t[k],
{
    assert(s.subrange(i, i + t.len())[k] == s[i + k]);
}

proof fn lemma_p_lit(s: Seq<char>, i: int, lit: Seq<char>)
    requires
        at(s, i, lit),
    ensures
        p_lit(s, i, lit) == Some(i + lit.len()),
{
}

proof fn lemma_p_str_body(s: Seq<char>, i: int, x: Seq<char>)
    requires
        at(s, i, esc(x) + seq!['"']),
    ensures
        p_str_body(s, i) == Some((x, i + esc(x).len() + 1)),
    decreases x.len(),
{
    let t = esc(x) + seq!['"'];
    if x.len() == 0 {
        lemma_at_char(s, i, t, 0);
        assert(t[0] == '"');
        assert(x =~= Seq::<char>::empty());
    } else {
        let c = x[0];
        let rest = x.skip(1);
        if c == '"' || c == '\\' {
            let tail = esc(rest) + seq!['"'];
            assert(esc(x) == seq!['\\', c] + esc(rest));
            assert(t =~= seq!['\\', c] + tail);
            lemma_at_split(s, i, seq!['\\', c], tail);
            lemma_at_char(s, i, seq!['\\', c], 0);
            lemma_at_char(s, i, seq!['\\', c], 1);
            assert(s[i] == '\\' && s[i + 1] == c);
            lemma_p_str_body(s, i + 2, rest);
            assert(seq![s[i + 1]] + rest =~= x);
        } else {
            let tail = esc(rest) + seq!['"'];
            assert(esc(x) == seq![c] + esc(rest));
            assert(t =~= seq![c] + tail);
            lemma_at_split(s, i, seq![c], tail);
            lemma_at_char(s, i, seq![c], 0);
            assert(s[i] == c);
            lemma_p_str_body(s, i + 1, rest);
            assert(seq![s[i]] + rest =~= x);
        }
    }
}

proof fn lemma_p_string(s: Seq<char>, i: int, x: Seq<char>)
    requires
        at(s, i, ser_str(x)),
    ensures
        p_string(s, i) == Some((x, i + ser_str(x).len())),
{
    let tail = esc(x) + seq!['"'];
    assert(ser_str(x) =~= seq!['"'] + tail);
    lemma_at_split(s, i, seq!['"'], tail);
    lemma_at_char(s, i, seq!['"'], 0);
    assert(s[i] == '"');
    lemma_p_str_body(s, i + 1, x);
}

proof fn lemma_digit_char(d: int)
    requires
        0 <= d < 10,
    ensures
        is_digit(digit_char(d)),
        digit_char(d) as int == d + 48,
        digit_char(d) != 'n',
        digit_char(d) != '-',
{
    assert(digit_char(d) as int == d + 48);
    assert('0' as int == 48 && '9' as int == 57);
    assert('n' as int == 110 && '-' as int == 45);
}

proof fn lemma_digits_facts(n: nat)
    ensures
        digits(n).len() >= 1,
        forall|k: int| 0 <= k < digits(n).len() ==> is_digit(#[trigger] digits(n)[k]),
        dval(digits(n)) == n,
    decreases n,
{
    if n < 10 {
        lemma_digit_char(n as int);
        assert(digits(n) == seq![digit_char(n as int)]);
        assert(digits(n).drop_last() =~= Seq::<char>::empty());
        assert(dval(Seq::<char>::empty()) == 0);
        assert(dval(digits(n)) == 0 * 10 + (digit_char(n as int) as int - 48));
    } else {
        lemma_digits_facts(n / 10);
        lemma_digit_char((n % 10) as int);
        let whole = digits(n / 10) + seq![digit_char((n % 10) as int)];
        assert(digits(n) == whole);
        assert(whole.drop_last() =~= digits(n / 10));
        assert(whole.last() == digit_char((n % 10) as int));
        assert(dval(whole) == dval(digits(n / 10)) * 10 + (n % 10));
        assert((n / 10) * 10 + n % 10 == n) by (nonlinear_arith);
        assert(forall|k: int|
            0 <= k < whole.len() - 1 ==> #[trigger] whole[k] == digits(n / 10)[k]);
    }
}

proof fn lemma_digits_end(s: Seq<char>, i: int, e: int)
    requires
        0 <= i <= e <= s.len(),
        forall|k: int| i <= k < e ==> is_digit(#[trigger] s[k]),
        e == s.len() || !is_digit(s[e]),
    ensures
        digits_end(s, i) == e,
    decreases e - i,
{
    if i < e {
        lemma_digits_end(s, i + 1, e);
    }
}

proof fn lemma_p_coord(s: Seq<char>, i: int, c: Coord)
    requires
        at(s, i, ser_coord(c)),
        i + ser_coord(c).len() == s.len() || !is_digit(s[i + ser_coord(c).len()]),
    ensures
        p_coord(s, i) == Some((c, i + ser_coord(c).len())),
{
    reveal_strlit("null");
    let t = ser_coord(c);
    let e0 = i + t.len();
    match c {
        Coord::Nan => {
            lemma_p_lit(s, i, "null"@);
        },
        Coord::Finite(v) => {
            if v >= 0 {
                lemma_digits_facts(v as nat);
                assert(s[i] == t[0]);
                assert(is_digit(s[i]));
                assert('n' as int == 110 && '-' as int == 45 && '0' as int == 48 && '9' as int
                    == 57);
                assert(p_lit(s, i, "null"@) is None) by {
                    if p_lit(s, i, "null"@) is Some {
                        assert(s.subrange(i, i + 4)[0] == s[i]);
                        assert(s[i] == 'n');
                    }
                }
                assert(s[i] != '-');
                assert(forall|k: int| i <= k < e0 ==> is_digit(#[trigger] s[k])) by {
                    assert(forall|k: int|
                        i <= k < e0 ==> #[trigger] s[k] == t[k - i] && is_digit(t[k - i]));
                }
                lemma_digits_end(s, i, e0);
                assert(s.subrange(i, e0) =~= digits(v as nat));
                assert(dval(s.subrange(i, e0)) == v);
            } else {
                let m = (-(v as int)) as nat;
                lemma_digits_facts(m);
                assert(t == seq!['-'] + digits(m));
                assert(s[i] == t[0] && t[0] == '-');
                assert('n' as int == 110 && '-' as int == 45);
                assert(p_lit(s, i, "null"@) is None) by {
                    if p_lit(s, i, "null"@) is Some {
                        assert(s.subrange(i, i + 4)[0] == s[i]);
                        assert(s[i] == 'n');
                    }
                }
                let j = i + 1;
                lemma_at_split(s, i, seq!['-'], digits(m));
                lemma_at_char(s, i, seq!['-'], 0);
                assert(forall|k: int| j <= k < e0 ==> is_digit(#[trigger] s[k])) by {
                    assert(forall|k: int|
                        j <= k < e0 ==> #[trigger] s[k] == s.subrange(j, j + digits(m).len())[k
                            - j] && is_digit(digits(m)[k - j]));
                }
                lemma_digits_end(s, j, e0);
                assert(s.subrange(j, e0) == digits(m));
                assert(dval(s.subrange(j, e0)) == m);
                assert(m <= i64::MAX as int + 1);
                assert((-(m as int)) as i64 == v);
            }
        },
    }
}

proof fn lemma_p_position(s: Seq<char>, i: int, x: Coord, y: Coord)
    requires
        at(s, i, ser_position(x, y)),
    ensures
        p_position(s, i) == Some(((x, y), i + ser_position(x, y).len())),
{
    let l1 = "{\"x\": "@;
    let c1 = ser_coord(x);
    let l2 = ", \"y\": "@;
    let c2 = ser_coord(y);
    let l3 = "}"@;
    reveal_strlit(", \"y\": ");
    reveal_strlit("}");
    assert(ser_position(x, y) =~= l1 + (c1 + (l2 + (c2 + l3))));
    lemma_at_split(s, i, l1, c1 + (l2 + (c2 + l3)));
    lemma_p_lit(s, i, l1);
    let i1 = i + l1.len();
    lemma_at_split(s, i1, c1, l2 + (c2 + l3));
    let i2 = i1 + c1.len();
    lemma_at_split(s, i2, l2, c2 + l3);
    lemma_at_char(s, i2, l2, 0);
    assert(s[i2] == ',' && !is_digit(','));
    lemma_p_coord(s, i1, x);
    lemma_p_lit(s, i2, l2);
    let i3 = i2 + l2.len();
    lemma_at_split(s, i3, c2, l3);
    let i4 = i3 + c2.len();
    lemma_at_char(s, i4, l3, 0);
    assert(s[i4] == '}' && !is_digit('}'));
    lemma_p_coord(s, i3, y);
    lemma_p_lit(s, i4, l3);
}

proof fn lemma_p_props(s: Seq<char>, i: int, k: KindV)
    requires
        at(s, i, ser_props(k)),
        crate::model::kind_wf(k),
    ensures
        p_props(s, i, kind_tag(k)) == Some((k, i + ser_props(k).len())),
{
    reveal_strlit("variable");
    reveal_strlit("print");
    match k {
        KindV::Variable { name, value } => {
            let l1 = "{\"name\": "@;
            let t1 = ser_str(name);
            let l2 = ", \"value\": "@;
            let t2 = ser_str(value);
            let l3 = "}"@;
            assert(ser_props(k) =~= l1 + (t1 + (l2 + (t2 + l3))));
            lemma_at_split(s, i, l1, t1 + (l2 + (t2 + l3)));
            lemma_p_lit(s, i, l1);
            let i1 = i + l1.len();
            lemma_at_split(s, i1, t1, l2 + (t2 + l3));
            lemma_p_string(s, i1, name);
            let i2 = i1 + t1.len();
            lemma_at_split(s, i2, l2, t2 + l3);
            lemma_p_lit(s, i2, l2);
            let i3 = i2 + l2.len();
            lemma_at_split(s, i3, t2, l3);
            lemma_p_string(s, i3, value);
            let i4 = i3 + t2.len();
            lemma_p_lit(s, i4, l3);
        },
        KindV::Print { message } => {
            assert("print"@.len() == 5 && "variable"@.len() == 8);
            assert(kind_tag(k) != "variable"@);
            let l1 = "{\"message\": "@;
            let t1 = ser_str(message);
            let l3 = "}"@;
            assert(ser_props(k) =~= l1 + (t1 + l3));
            lemma_at_split(s, i, l1, t1 + l3);
            lemma_p_lit(s, i, l1);
            let i1 = i + l1.len();
            lemma_at_split(s, i1, t1, l3);
            lemma_p_string(s, i1, message);
            let i2 = i1 + t1.len();
            lemma_p_lit(s, i2, l3);
        },
        KindV::Other { tag } => {
            assert(kind_tag(k) != "variable"@ && kind_tag(k) != "print"@);
            lemma_p_lit(s, i, "{}"@);
            assert(ser_props(k) == "{}"@);
        },
    }
}

proof fn lemma_p_node(s: Seq<char>, i: int, n: NodeV)
    requires
        at(s, i, ser_node(n)),
        crate::model::kind_wf(n.kind),
    ensures
        p_node(s, i) == Some((n, i + ser_node(n).len())),
{
    let l1 = "{\"id\": "@;
    let t1 = ser_str(n.id);
    let l2 = ", \"position\": "@;
    let t2 = ser_position(n.position.x, n.position.y);
    let l3 = ", \"node_type\": "@;
    let t3 = ser_str(kind_tag(n.kind));
    let l4 = ", \"properties\": "@;
    let t4 = ser_props(n.kind);
    let l5 = "}"@;
    assert(ser_node(n) =~= l1 + (t1 + (l2 + (t2 + (l3 + (t3 + (l4 + (t4 + l5))))))));
    lemma_at_split(s, i, l1, t1 + (l2 + (t2 + (l3 + (t3 + (l4 + (t4 + l5)))))));
    lemma_p_lit(s, i, l1);
    let i1 = i + l1.len();
    lemma_at_split(s, i1, t1, l2 + (t2 + (l3 + (t3 + (l4 + (t4 + l5))))));
    lemma_p_string(s, i1, n.id);
    let i2 = i1 + t1.len();
    lemma_at_split(s, i2, l2, t2 + (l3 + (t3 + (l4 + (t4 + l5)))));
    lemma_p_lit(s, i2, l2);
    let i3 = i2 + l2.len();
    lemma_at_split(s, i3, t2, l3 + (t3 + (l4 + (t4 + l5))));
    lemma_p_position(s, i3, n.position.x, n.position.y);
    let i4 = i3 + t2.len();
    lemma_at_split(s, i4, l3, t3 + (l4 + (t4 + l5)));
    lemma_p_lit(s, i4, l3);
    let i5 = i4 + l3.len();
    lemma_at_split(s, i5, t3, l4 + (t4 + l5));
    lemma_p_string(s, i5, kind_tag(n.kind));
    let i6 = i5 + t3.len();
    lemma_at_split(s, i6, l4, t4 + l5);
    lemma_p_lit(s, i6, l4);
    let i7 = i6 + l4.len();
    lemma_at_split(s, i7, t4, l5);
    lemma_p_props(s, i7, n.kind);
    let i8 = i7 + t4.len();
    lemma_p_lit(s, i8, l5);
    assert((NodeV {
        id: n.id,
        position: crate::model::Position { x: n.position.x, y: n.position.y },
        kind: n.kind,
    }) =~= n);
}

proof fn lemma_p_conn(s: Seq<char>, i: int, c: ConnV)
    requires
        at(s, i, ser_conn(c)),
    ensures
        p_conn(s, i) == Some((c, i + ser_conn(c).len())),
{
    let l1 = "{\"id\": "@;
    let t1 = ser_str(c.id);
    let l2 = ", \"source_node\": "@;
    let t2 = ser_str(c.source_node);
    let l3 = ", \"target_node\": "@;
    let t3 = ser_str(c.target_node);
    let l4 = "}"@;
    assert(ser_conn(c) =~= l1 + (t1 + (l2 + (t2 + (l3 + (t3 + l4))))));
    lemma_at_split(s, i, l1, t1 + (l2 + (t2 + (l3 + (t3 + l4)))));
    lemma_p_lit(s, i, l1);
    let i1 = i + l1.len();
    lemma_at_split(s, i1, t1, l2 + (t2 + (l3 + (t3 + l4))));
    lemma_p_string(s, i1, c.id);
    let i2 = i1 + t1.len();
    lemma_at_split(s, i2, l2, t2 + (l3 + (t3 + l4)));
    lemma_p_lit(s, i2, l2);
    let i3 = i2 + l2.len();
    lemma_at_split(s, i3, t2, l3 + (t3 + l4));
    lemma_p_string(s, i3, c.source_node);
    let i4 = i3 + t2.len();
    lemma_at_split(s, i4, l3, t3 + l4);
    lemma_p_lit(s, i4, l3);
    let i5 = i4 + l3.len();
    lemma_at_split(s, i5, t3, l4);
    lemma_p_string(s, i5, c.target_node);
    let i6 = i5 + t3.len();
    lemma_p_lit(s, i6, l4);
    assert((ConnV { id: c.id, source_node: c.source_node, target_node: c.target_node }) =~= c);
}

/// `ser_node` output is never empty and always opens with a brace.
proof fn lemma_ser_node_head(n: NodeV)
    ensures
        ser_node(n).len() >= 1,
        ser_node(n)[0] == '{',
{
    reveal_strlit("{\"id\": ");
    assert(ser_node(n)[0] == "{\"id\": "@[0]);
}

proof fn lemma_ser_conn_head(c: ConnV)
    ensures
        ser_conn(c).len() >= 1,
        ser_conn(c)[0] == '{',
{
    reveal_strlit("{\"id\": ");
    assert(ser_conn(c)[0] == "{\"id\": "@[0]);
}

#[verifier::rlimit(60)]
proof fn lemma_p_node_list(s: Seq<char>, i: int, nodes: Seq<NodeV>)
    requires
        nodes.len() >= 1,
        at(s, i, ser_list(nodes.map_values(|n: NodeV| ser_node(n))) + seq![']']),
        forall|k: int| 0 <= k < nodes.len() ==> crate::model::kind_wf(#[trigger] nodes[k].kind),
    ensures
        p_node_list(s, i) == Some(
            (nodes, i + ser_list(nodes.map_values(|n: NodeV| ser_node(n))).len() + 1),
        ),
    decreases nodes.len(),
{
    reveal_strlit("]");
    reveal_strlit(", ");
    let items = nodes.map_values(|n: NodeV| ser_node(n));
    assert("]"@ =~= seq![']']);
    assert(", "@ =~= seq![',', ' ']);
    lemma_ser_node_head(nodes[0]);
    if nodes.len() == 1 {
        assert(ser_list(items) == items[0] && items[0] == ser_node(nodes[0]));
        lemma_at_split(s, i, ser_node(nodes[0]), seq![']']);
        lemma_p_node(s, i, nodes[0]);
        let j = i + ser_node(nodes[0]).len();
        lemma_p_lit(s, j, "]"@);
        assert(seq![nodes[0]] =~= nodes);
    } else {
        let rest = nodes.skip(1);
        let rest_items = rest.map_values(|n: NodeV| ser_node(n));
        assert(items[0] == ser_node(nodes[0]));
        assert(items.skip(1) =~= rest_items);
        assert(ser_list(items) == items[0] + ", "@ + ser_list(items.skip(1)));
        assert(ser_list(items) + seq![']'] =~= ser_node(nodes[0]) + (", "@ + (ser_list(rest_items)
            + seq![']'])));
        lemma_at_split(s, i, ser_node(nodes[0]), ", "@ + (ser_list(rest_items) + seq![']']));
        lemma_p_node(s, i, nodes[0]);
        let j = i + ser_node(nodes[0]).len();
        lemma_at_split(s, j, ", "@, ser_list(rest_items) + seq![']']);
        lemma_at_char(s, j, ", "@, 0);
        assert(s[j] == ',');
        assert(p_lit(s, j, "]"@) is None) by {
            if p_lit(s, j, "]"@) is Some {
                assert(s.subrange(j, j + "]"@.len())[0] == s[j]);
            }
        }
        lemma_p_lit(s, j, ", "@);
        let j2 = j + 2;
        assert(i < j2);
        lemma_p_node_list(s, j2, rest);
        assert(seq![nodes[0]] + rest =~= nodes);
    }
}

proof fn lemma_p_nodes(s: Seq<char>, i: int, nodes: Seq<NodeV>)
    requires
        at(s, i, ser_array(nodes.map_values(|n: NodeV| ser_node(n)))),
        forall|k: int| 0 <= k < nodes.len() ==> crate::model::kind_wf(#[trigger] nodes[k].kind),
    ensures
        p_nodes(s, i) == Some(
            (nodes, i + ser_array(nodes.map_values(|n: NodeV| ser_node(n))).len()),
        ),
{
    reveal_strlit("[]");
    reveal_strlit("[");
    let items = nodes.map_values(|n: NodeV| ser_node(n));
    let arr = ser_array(items);
    if nodes.len() == 0 {
        assert(arr =~= "[]"@);
        lemma_p_lit(s, i, "[]"@);
        assert(nodes =~= Seq::<NodeV>::empty());
    } else {
        lemma_ser_node_head(nodes[0]);
        assert(items[0] == ser_node(nodes[0]));
        assert(ser_list(items)[0] == '{') by {
            if nodes.len() == 1 {
                assert(ser_list(items) == items[0]);
            } else {
                assert(ser_list(items) == items[0] + ", "@ + ser_list(items.skip(1)));
                assert((items[0] + ", "@ + ser_list(items.skip(1)))[0] == items[0][0]);
            }
        }
        assert(arr =~= seq!['['] + (ser_list(items) + seq![']']));
        lemma_at_split(s, i, seq!['['], ser_list(items) + seq![']']);
        lemma_at_char(s, i, seq!['['], 0);
        assert(s[i] == '[');
        lemma_at_char(s, i + 1, ser_list(items) + seq![']'], 0);
        assert(s[i + 1] == '{');
        assert(p_lit(s, i, "[]"@) is None) by {
            if p_lit(s, i, "[]"@) is Some {
                assert(s.subrange(i, i + "[]"@.len())[1] == s[i + 1]);
                assert(s[i + 1] == ']');
            }
        }
        assert("["@ =~= seq!['[']);
        lemma_p_lit(s, i, "["@);
        lemma_p_node_list(s, i + 1, nodes);
    }
}

proof fn lemma_p_conn_list(s: Seq<char>, i: int, conns: Seq<ConnV>)
    requires
        conns.len() >= 1,
        at(s, i, ser_list(conns.map_values(|c: ConnV| ser_conn(c))) + seq![']']),
    ensures
        p_conn_list(s, i) == Some(
            (conns, i + ser_list(conns.map_values(|c: ConnV| ser_conn(c))).len() + 1),
        ),
    decreases conns.len(),
{
    reveal_strlit("]");
    reveal_strlit(", ");
    let items = conns.map_values(|c: ConnV| ser_conn(c));
    assert("]"@ =~= seq![']']);
    assert(", "@ =~= seq![',', ' ']);
    lemma_ser_conn_head(conns[0]);
    if conns.len() == 1 {
        assert(ser_list(items) == items[0] && items[0] == ser_conn(conns[0]));
        lemma_at_split(s, i, ser_conn(conns[0]), seq![']']);
        lemma_p_conn(s, i, conns[0]);
        let j = i + ser_conn(conns[0]).len();
        lemma_p_lit(s, j, "]"@);
        assert(seq![conns[0]] =~= conns);
    } else {
        let rest = conns.skip(1);
        let rest_items = rest.map_values(|c: ConnV| ser_conn(c));
        assert(items[0] == ser_conn(conns[0]));
        assert(items.skip(1) =~= rest_items);
        assert(ser_list(items) == items[0] + ", "@ + ser_list(items.skip(1)));
        assert(ser_list(items) + seq![']'] =~= ser_conn(conns[0]) + (", "@ + (ser_list(rest_items)
            + seq![']'])));
        lemma_at_split(s, i, ser_conn(conns[0]), ", "@ + (ser_list(rest_items) + seq![']']));
        lemma_p_conn(s, i, conns[0]);
        let j = i + ser_conn(conns[0]).len();
        lemma_at_split(s, j, ", "@, ser_list(rest_items) + seq![']']);
        lemma_at_char(s, j, ", "@, 0);
        assert(s[j] == ',');
        assert(p_lit(s, j, "]"@) is None) by {
            if p_lit(s, j, "]"@) is Some {
                assert(s.subrange(j, j + "]"@.len())[0] == s[j]);
            }
        }
        lemma_p_lit(s, j, ", "@);
        let j2 = j + 2;
        assert(i < j2);
        lemma_p_conn_list(s, j2, rest);
        assert(seq![conns[0]] + rest =~= conns);
    }
}

proof fn lemma_p_conns(s: Seq<char>, i: int, conns: Seq<ConnV>)
    requires
        at(s, i, ser_array(conns.map_values(|c: ConnV| ser_conn(c)))),
    ensures
        p_conns(s, i) == Some(
            (conns, i + ser_array(conns.map_values(|c: ConnV| ser_conn(c))).len()),
        ),
{
    reveal_strlit("[]");
    reveal_strlit("[");
    let items = conns.map_values(|c: ConnV| ser_conn(c));
    let arr = ser_array(items);
    if conns.len() == 0 {
        assert(arr =~= "[]"@);
        lemma_p_lit(s, i, "[]"@);
        assert(conns =~= Seq::<ConnV>::empty());
    } else {
        lemma_ser_conn_head(conns[0]);
        assert(items[0] == ser_conn(conns[0]));
        assert(ser_list(items)[0] == '{') by {
            if conns.len() == 1 {
                assert(ser_list(items) == items[0]);
            } else {
                assert(ser_list(items) == items[0] + ", "@ + ser_list(items.skip(1)));
                assert((items[0] + ", "@ + ser_list(items.skip(1)))[0] == items[0][0]);
            }
        }
        assert(arr =~= seq!['['] + (ser_list(items) + seq![']']));
        lemma_at_split(s, i, seq!['['], ser_list(items) + seq![']']);
        lemma_at_char(s, i, seq!['['], 0);
        assert(s[i] == '[');
        lemma_at_char(s, i + 1, ser_list(items) + seq![']'], 0);
        assert(s[i + 1] == '{');
        assert(p_lit(s, i, "[]"@) is None) by {
            if p_lit(s, i, "[]"@) is Some {
                assert(s.subrange(i, i + "[]"@.len())[1] == s[i + 1]);
                assert(s[i + 1] == ']');
            }
        }
        assert("["@ =~= seq!['[']);
        lemma_p_lit(s, i, "["@);
        lemma_p_conn_list(s, i + 1, conns);
    }
}

/// The round trip: parsing a serialized well-formed workflow gives back
/// exactly that workflow, field for field.
#[verifier::rlimit(100)]
pub proof fn lemma_round_trip(w: WorkflowV)
    requires
        crate::model::workflow_wf(w),
    ensures
        p_workflow(ser_workflow(w)) == Some(w),
{
    let s = ser_workflow(w);
    let l1 = "{\n  \"id\": "@;
    let t1 = ser_str(w.id);
    let l2 = ",\n  \"name\": "@;
    let t2 = ser_str(w.name);
    let l3 = ",\n  \"nodes\": "@;
    let t3 = ser_array(w.nodes.map_values(|n: NodeV| ser_node(n)));
    let l4 = ",\n  \"connections\": "@;
    let t4 = ser_array(w.connections.map_values(|c: ConnV| ser_conn(c)));
    let l5 = "\n}"@;
    assert(s =~= l1 + (t1 + (l2 + (t2 + (l3 + (t3 + (l4 + (t4 + l5))))))));
    assert(at(s, 0, l1 + (t1 + (l2 + (t2 + (l3 + (t3 + (l4 + (t4 + l5))))))))) by {
        assert(s.subrange(0, s.len() as int) =~= s);
    }
    lemma_at_split(s, 0, l1, t1 + (l2 + (t2 + (l3 + (t3 + (l4 + (t4 + l5)))))));
    lemma_p_lit(s, 0, l1);
    let i1 = l1.len() as int;
    lemma_at_split(s, i1, t1, l2 + (t2 + (l3 + (t3 + (l4 + (t4 + l5))))));
    lemma_p_string(s, i1, w.id);
    let i2 = i1 + t1.len();
    lemma_at_split(s, i2, l2, t2 + (l3 + (t3 + (l4 + (t4 + l5)))));
    lemma_p_lit(s, i2, l2);
    let i3 = i2 + l2.len();
    lemma_at_split(s, i3, t2, l3 + (t3 + (l4 + (t4 + l5))));
    lemma_p_string(s, i3, w.name);
    let i4 = i3 + t2.len();
    lemma_at_split(s, i4, l3, t3 + (l4 + (t4 + l5)));
    lemma_p_lit(s, i4, l3);
    let i5 = i4 + l3.len();
    lemma_at_split(s, i5, t3, l4 + (t4 + l5));
    lemma_p_nodes(s, i5, w.nodes);
    let i6 = i5 + t3.len();
    lemma_at_split(s, i6, l4, t4 + l5);
    lemma_p_lit(s, i6, l4);
    let i7 = i6 + l4.len();
    lemma_at_split(s, i7, t4, l5);
    lemma_p_conns(s, i7, w.connections);
    let i8 = i7 + t4.len();
    lemma_p_lit(s, i8, l5);
    assert((WorkflowV {
        id: w.id,
        name: w.name,
        nodes: w.nodes,
        connections: w.connections,
    }) =~= w);
}

// ---------------------------------------------------------------------
// The executable serializer
// ---------------------------------------------------------------------

proof fn lemma_esc_snoc(s: Seq<char>, c: char)
    ensures
        esc(s.push(c)) == esc(s) + (if c == '"' || c == '\\' {
            seq!['\\', c]
        } else {
            seq![c]
        }),
    decreases s.len(),
{
    let e1 = if c == '"' || c == '\\' {
        seq!['\\', c]
    } else {
        seq![c]
    };
    if s.len() == 0 {
        assert(s.push(c)[0] == c);
        assert(s.push(c).skip(1) =~= Seq::<char>::empty());
        assert(esc(Seq::<char>::empty()) == Seq::<char>::empty());
        assert(esc(s) == Seq::<char>::empty());
        assert(esc(s.push(c)) =~= esc(s) + e1);
    } else {
        assert(s.push(c)[0] == s[0]);
        assert(s.push(c).skip(1) =~= s.skip(1).push(c));
        lemma_esc_snoc(s.skip(1), c);
        assert(esc(s.push(c)) =~= esc(s) + e1);
    }
}

/// Appends the escaped form of `s`.
fn write_escaped(out: &mut String, s: &str)
    ensures
        final(out)@ == old(out)@ + esc(s@),
{
    let n = s.unicode_len();
    let mut i: usize = 0;
    proof {
        assert(s@.take(0) =~= Seq::<char>::empty());
        assert(out@ =~= old(out)@ + esc(s@.take(0)));
    }
    while i < n
        invariant
            n == s@.len(),
            0 <= i <= n,
            out@ == old(out)@ + esc(s@.take(i as int)),
        decreases n - i,
    {
        let c = s.get_char(i);
        if c == '"' || c == '\\' {
            crate::outside::push_char(out, '\\');
            crate::outside::push_char(out, c);
        } else {
            crate::outside::push_char(out, c);
        }
        i += 1;
        proof {
            lemma_esc_snoc(s@.take(i - 1 as int), s@[i - 1 as int]);
            assert(s@.take(i as int) =~= s@.take(i - 1 as int).push(s@[i - 1 as int]));
            assert(out@ =~= old(out)@ + esc(s@.take(i as int)));
        }
    }
    proof {
        assert(s@.take(n as int) =~= s@);
    }
}

/// Appends a quoted, escaped string token.
fn write_str_token(out: &mut String, s: &str)
    ensures
        final(out)@ == old(out)@ + ser_str(s@),
{
    crate::outside::push_char(out, '"');
    write_escaped(out, s);
    crate::outside::push_char(out, '"');
    proof {
        assert(out@ =~= old(out)@ + ser_str(s@));
    }
}

/// Appends the decimal digits of `n`.
fn write_digits(out: &mut String, n: u64)
    ensures
        final(out)@ == old(out)@ + digits(n as nat),
    decreases n,
{
    if n < 10 {
        let c = (48 + n as u8) as char;
        crate::outside::push_char(out, c);
        proof {
            assert(c == digit_char(n as int));
            assert(out@ =~= old(out)@ + digits(n as nat));
        }
    } else {
        write_digits(out, n / 10);
        let c = (48 + (n % 10) as u8) as char;
        crate::outside::push_char(out, c);
        proof {
            assert(c == digit_char((n as nat % 10) as int));
            assert(out@ =~= old(out)@ + digits(n as nat));
        }
    }
}

/// Appends a coordinate token.
fn write_coord(out: &mut String, c: Coord)
    ensures
        final(out)@ == old(out)@ + ser_coord(c),
{
    match c {
        Coord::Nan => {
            out.append("null");
        },
        Coord::Finite(v) => {
            if v >= 0 {
                write_digits(out, v as u64);
            } else {
                crate::outside::push_char(out, '-');
                let m: u64 = if v == i64::MIN {
                    9223372036854775808u64
                } else {
                    (-v) as u64
                };
                write_digits(out, m);
                proof {
                    assert(m as nat == (-(v as int)) as nat);
                    assert(out@ =~= old(out)@ + ser_coord(c));
                }
            }
        },
    }
}

/// Appends a position object.
fn write_position(out: &mut String, x: Coord, y: Coord)
    ensures
        final(out)@ == old(out)@ + ser_position(x, y),
{
    out.append("{\"x\": ");
    write_coord(out, x);
    out.append(", \"y\": ");
    write_coord(out, y);
    out.append("}");
    proof {
        assert(out@ =~= old(out)@ + ser_position(x, y));
    }
}

/// Appends one node object.
#[verifier::rlimit(100)]
fn write_node(out: &mut String, n: &crate::model::WorkflowNode)
    ensures
        final(out)@ == old(out)@ + ser_node(n@),
{
    out.append("{\"id\": ");
    write_str_token(out, n.id.as_str());
    out.append(", \"position\": ");
    write_position(out, n.position.x, n.position.y);
    out.append(", \"node_type\": ");
    match &n.kind {
        crate::model::NodeKind::Variable { name, value } => {
            write_str_token(out, "variable");
            out.append(", \"properties\": {\"name\": ");
            write_str_token(out, name.as_str());
            out.append(", \"value\": ");
            write_str_token(out, value.as_str());
            out.append("}");
        },
        crate::model::NodeKind::Print { message } => {
            write_str_token(out, "print");
            out.append(", \"properties\": {\"message\": ");
            write_str_token(out, message.as_str());
            out.append("}");
        },
        crate::model::NodeKind::Other { tag } => {
            write_str_token(out, tag.as_str());
            out.append(", \"properties\": {}");
        },
    }
    out.append("}");
    proof {
        assert(", \"properties\": {\"name\": "@ =~= ", \"properties\": "@ + "{\"name\": "@) by {
            reveal_strlit(", \"properties\": {\"name\": ");
            reveal_strlit(", \"properties\": ");
            reveal_strlit("{\"name\": ");
        }
        assert(", \"properties\": {\"message\": "@ =~= ", \"properties\": "@ + "{\"message\": "@)
            by {
            reveal_strlit(", \"properties\": {\"message\": ");
            reveal_strlit(", \"properties\": ");
            reveal_strlit("{\"message\": ");
        }
        assert(", \"properties\": {}"@ =~= ", \"properties\": "@ + "{}"@) by {
            reveal_strlit(", \"properties\": {}");
            reveal_strlit(", \"properties\": ");
            reveal_strlit("{}");
        }
        assert(out@ =~= old(out)@ + ser_node(n@));
    }
}

/// Appends one connection object.
fn write_conn(out: &mut String, c: &crate::model::Connection)
    ensures
        final(out)@ == old(out)@ + ser_conn(c@),
{
    out.append("{\"id\": ");
    write_str_token(out, c.id.as_str());
    out.append(", \"source_node\": ");
    write_str_token(out, c.source_node.as_str());
    out.append(", \"target_node\": ");
    write_str_token(out, c.target_node.as_str());
    out.append("}");
    proof {
        assert(out@ =~= old(out)@ + ser_conn(c@));
    }
}

proof fn lemma_ser_list_snoc(items: Seq<Seq<char>>, t: Seq<char>)
    ensures
        ser_list(items.push(t)) == if items.len() == 0 {
            t
        } else {
            ser_list(items) + ", "@ + t
        },
    decreases items.len(),
{
    if items.len() == 0 {
        assert(items.push(t)[0] == t);
        assert(ser_list(items.push(t)) == t);
    } else if items.len() == 1 {
        assert(items.push(t)[0] == items[0]);
        assert(items.push(t).skip(1) =~= seq![t]);
        assert(ser_list(seq![t]) == t);
        assert(ser_list(items) == items[0]);
    } else {
        assert(items.push(t)[0] == items[0]);
        assert(items.push(t).skip(1) =~= items.skip(1).push(t));
        lemma_ser_list_snoc(items.skip(1), t);
        assert(ser_list(items.push(t)) =~= ser_list(items) + ", "@ + t);
    }
}

/// Appends the node array.
fn write_nodes_array(out: &mut String, nodes: &Vec<crate::model::WorkflowNode>)
    ensures
        final(out)@ == old(out)@ + ser_array(
            nodes@.map_values(|n: crate::model::WorkflowNode| ser_node(n@)),
        ),
{
    let ghost items = nodes@.map_values(|n: crate::model::WorkflowNode| ser_node(n@));
    crate::outside::push_char(out, '[');
    let mut i: usize = 0;
    proof {
        assert(items.take(0) =~= Seq::<Seq<char>>::empty());
        assert(out@ =~= old(out)@ + seq!['['] + ser_list(items.take(0)));
    }
    while i < nodes.len()
        invariant
            0 <= i <= nodes.len(),
            items == nodes@.map_values(|n: crate::model::WorkflowNode| ser_node(n@)),
            out@ == old(out)@ + seq!['['] + ser_list(items.take(i as int)),
        decreases nodes.len() - i,
    {
        if i > 0 {
            out.append(", ");
        }
        write_node(out, &nodes[i]);
        i += 1;
        proof {
            lemma_ser_list_snoc(items.take(i - 1 as int), items[i - 1 as int]);
            assert(items.take(i as int) =~= items.take(i - 1 as int).push(items[i - 1 as int]));
            assert(out@ =~= old(out)@ + seq!['['] + ser_list(items.take(i as int)));
        }
    }
    crate::outside::push_char(out, ']');
    proof {
        assert(items.take(i as int) =~= items);
        assert(out@ =~= old(out)@ + ser_array(items));
    }
}

/// Appends the connection array.
fn write_conns_array(out: &mut String, conns: &Vec<crate::model::Connection>)
    ensures
        final(out)@ == old(out)@ + ser_array(
            conns@.map_values(|c: crate::model::Connection| ser_conn(c@)),
        ),
{
    let ghost items = conns@.map_values(|c: crate::model::Connection| ser_conn(c@));
    crate::outside::push_char(out, '[');
    let mut i: usize = 0;
    proof {
        assert(items.take(0) =~= Seq::<Seq<char>>::empty());
        assert(out@ =~= old(out)@ + seq!['['] + ser_list(items.take(0)));
    }
    while i < conns.len()
        invariant
            0 <= i <= conns.len(),
            items == conns@.map_values(|c: crate::model::Connection| ser_conn(c@)),
            out@ == old(out)@ + seq!['['] + ser_list(items.take(i as int)),
        decreases conns.len() - i,
    {
        if i > 0 {
            out.append(", ");
        }
        write_conn(out, &conns[i]);
        i += 1;
        proof {
            lemma_ser_list_snoc(items.take(i - 1 as int), items[i - 1 as int]);
            assert(items.take(i as int) =~= items.take(i - 1 as int).push(items[i - 1 as int]));
            assert(out@ =~= old(out)@ + seq!['['] + ser_list(items.take(i as int)));
        }
    }
    crate::outside::push_char(out, ']');
    proof {
        assert(items.take(i as int) =~= items);
        assert(out@ =~= old(out)@ + ser_array(items));
    }
}

/// Renders a workflow as its textual document.
pub fn serialize_workflow(w: &crate::model::Workflow) -> (r: String)
    ensures
        r@ == ser_workflow(w@),
{
    let mut out = String::new();
    out.append("{\n  \"id\": ");
    write_str_token(&mut out, w.id.as_str());
    out.append(",\n  \"name\": ");
    write_str_token(&mut out, w.name.as_str());
    out.append(",\n  \"nodes\": ");
    write_nodes_array(&mut out, &w.nodes);
    out.append(",\n  \"connections\": ");
    write_conns_array(&mut out, &w.connections);
    out.append("\n}");
    proof {
        assert(w@.nodes.map_values(|n: NodeV| ser_node(n)) =~= w.nodes@.map_values(
            |n: crate::model::WorkflowNode| ser_node(n@),
        ));
        assert(w@.connections.map_values(|c: ConnV| ser_conn(c)) =~= w.connections@.map_values(
            |c: crate::model::Connection| ser_conn(c@),
        ));
        assert(out@ =~= ser_workflow(w@));
    }
    out
}

// ---------------------------------------------------------------------
// The executable parser
// ---------------------------------------------------------------------

/// The characters of a string, in order.
fn to_chars(s: &str) -> (r: Vec<char>)
    ensures
        r@ == s@,
{
    let n = s.unicode_len();
    let mut out: Vec<char> = Vec::new();
    let mut i: usize = 0;
    while i < n
        invariant
            n == s@.len(),
            0 <= i <= n,
            out@ == s@.take(i as int),
        decreases n - i,
    {
        out.push(s.get_char(i));
        i += 1;
        proof {
            assert(s@.take(i as int) =~= s@.take(i - 1 as int).push(s@[i - 1 as int]));
        }
    }
    proof {
        assert(s@.take(n as int) =~= s@);
    }
    out
}

fn px_lit(v: &Vec<char>, i: usize, lit: &str) -> (r: Option<usize>)
    ensures
        match r {
            Some(j) => p_lit(v@, i as int, lit@) == Some(j as int) && i <= j <= v@.len(),
            None => p_lit(v@, i as int, lit@) is None,
        },
{
    let n = lit.unicode_len();
    let vlen = v.len();
    if i > vlen || n > vlen - i {
        return None;
    }
    let mut k: usize = 0;
    while k < n
        invariant
            n == lit@.len(),
            0 <= k <= n,
            i + n <= vlen,
            vlen == v@.len(),
            forall|q: int| 0 <= q < k ==> v@[i + q] == lit@[q],
        decreases n - k,
    {
        if v[i + k] != lit.get_char(k) {
            proof {
                assert(v@.subrange(i as int, i as int + n as int)[k as int] == v@[i + k]);
            }
            return None;
        }
        k += 1;
    }
    proof {
        assert forall|q: int|
            0 <= q < n implies v@.subrange(i as int, i as int + n as int)[q] == lit@[q] by {
            assert(v@[i + q] == lit@[q]);
        }
        assert(v@.subrange(i as int, i as int + n as int) =~= lit@);
    }
    Some(i + n)
}

fn px_str_body(v: &Vec<char>, i: usize) -> (r: Option<(String, usize)>)
    ensures
        match r {
            Some((t, j)) => p_str_body(v@, i as int) == Some((t@, j as int)) && i <= j
                <= v@.len(),
            None => p_str_body(v@, i as int) is None,
        },
    decreases v@.len() - i,
{
    if i >= v.len() {
        return None;
    }
    let c = v[i];
    if c == '"' {
        Some((String::new(), i + 1))
    } else if c == '\\' {
        if i + 1 < v.len() {
            let d = v[i + 1];
            match px_str_body(v, i + 2) {
                Some((t, j)) => {
                    let mut out = String::new();
                    crate::outside::push_char(&mut out, d);
                    out.append(t.as_str());
                    proof {
                        assert(out@ =~= seq![v@[i + 1]] + t@);
                    }
                    Some((out, j))
                },
                None => None,
            }
        } else {
            None
        }
    } else {
        match px_str_body(v, i + 1) {
            Some((t, j)) => {
                let mut out = String::new();
                crate::outside::push_char(&mut out, c);
                out.append(t.as_str());
                proof {
                    assert(out@ =~= seq![v@[i as int]] + t@);
                }
                Some((out, j))
            },
            None => None,
        }
    }
}

fn px_string(v: &Vec<char>, i: usize) -> (r: Option<(String, usize)>)
    ensures
        match r {
            Some((t, j)) => p_string(v@, i as int) == Some((t@, j as int)) && i <= j <= v@.len(),
            None => p_string(v@, i as int) is None,
        },
{
    if i < v.len() && v[i] == '"' {
        px_str_body(v, i + 1)
    } else {
        None
    }
}

fn is_digit_x(c: char) -> (r: bool)
    ensures
        r == is_digit(c),
{
    let u = c as u32;
    u >= 48 && u <= 57
}

/// A digit run has digits up to its end and a non-digit (or the end of
/// the input) right after.
proof fn lemma_digits_end_run(s: Seq<char>, i: int)
    requires
        0 <= i <= s.len(),
    ensures
        i <= digits_end(s, i) <= s.len(),
        forall|q: int| i <= q < digits_end(s, i) ==> is_digit(#[trigger] s[q]),
        digits_end(s, i) == s.len() || !is_digit(s[digits_end(s, i)]),
    decreases s.len() - i,
{
    if i < s.len() && is_digit(s[i]) {
        lemma_digits_end_run(s, i + 1);
    }
}

proof fn lemma_dval_nonneg(ds: Seq<char>)
    requires
        forall|q: int| 0 <= q < ds.len() ==> is_digit(#[trigger] ds[q]),
    ensures
        dval(ds) >= 0,
    decreases ds.len(),
{
    if ds.len() > 0 {
        assert(forall|q: int|
            0 <= q < ds.drop_last().len() ==> #[trigger] ds.drop_last()[q] == ds[q]);
        lemma_dval_nonneg(ds.drop_last());
    }
}

proof fn lemma_dval_step(s: Seq<char>, j: int, k: int)
    requires
        0 <= j <= k < s.len(),
    ensures
        dval(s.subrange(j, k + 1)) == dval(s.subrange(j, k)) * 10 + (s[k] as int - 48),
{
    assert(s.subrange(j, k + 1).drop_last() =~= s.subrange(j, k));
    assert(s.subrange(j, k + 1).last() == s[k]);
}

/// Extending a digit run never lowers its value.
proof fn lemma_dval_prefix_le(s: Seq<char>, j: int, b: int, e: int)
    requires
        0 <= j <= b <= e <= s.len(),
        forall|q: int| j <= q < e ==> is_digit(#[trigger] s[q]),
    ensures
        dval(s.subrange(j, b)) <= dval(s.subrange(j, e)),
    decreases e - b,
{
    if b < e {
        lemma_dval_step(s, j, e - 1);
        assert(forall|q: int|
            0 <= q < s.subrange(j, e - 1).len() ==> #[trigger] s.subrange(j, e - 1)[q] == s[j
                + q]);
        lemma_dval_nonneg(s.subrange(j, e - 1));
        lemma_dval_prefix_le(s, j, b, e - 1);
        assert(s[e - 1] as int - 48 >= 0);
    }
}

fn px_coord(v: &Vec<char>, i: usize) -> (r: Option<(Coord, usize)>)
    ensures
        match r {
            Some((c, j)) => p_coord(v@, i as int) == Some((c, j as int)) && i <= j <= v@.len(),
            None => p_coord(v@, i as int) is None,
        },
{
    match px_lit(v, i, "null") {
        Some(j) => {
            return Some((Coord::Nan, j));
        },
        None => {
        },
    }
    let neg = i < v.len() && v[i] == '-';
    let start = if neg {
        i + 1
    } else {
        i
    };
    let ghost limit: int = if neg {
        i64::MAX as int + 1
    } else {
        i64::MAX as int
    };
    if start > v.len() {
        proof {
            assert(digits_end(v@, start as int) == start as int);
        }
        return None;
    }
    let mut k: usize = start;
    let mut acc: u64 = 0;
    proof {
        assert(v@.subrange(start as int, start as int) =~= Seq::<char>::empty());
    }
    while k < v.len() && is_digit_x(v[k])
        invariant
            i <= start <= k <= v@.len(),
            neg == (i < v@.len() && v@[i as int] == '-'),
            start == if neg {
                i + 1
            } else {
                i as int
            },
            limit == if neg {
                i64::MAX as int + 1
            } else {
                i64::MAX as int
            },
            p_lit(v@, i as int, "null"@) is None,
            forall|q: int| start <= q < k ==> is_digit(#[trigger] v@[q]),
            digits_end(v@, start as int) == digits_end(v@, k as int),
            acc as int == dval(v@.subrange(start as int, k as int)),
            acc as int <= limit,
        decreases v@.len() - k,
    {
        let d: u64 = (v[k] as u32 - 48) as u64;
        let wide: u128 = acc as u128 * 10 + d as u128;
        let limit_e: u128 = if neg {
            9223372036854775808u128
        } else {
            9223372036854775807u128
        };
        if wide > limit_e {
            proof {
                let e = digits_end(v@, start as int);
                lemma_digits_end_run(v@, k as int);
                lemma_digits_end_run(v@, start as int);
                assert(digits_end(v@, k as int) == digits_end(v@, k + 1));
                assert(e >= k + 1);
                lemma_digits_end_run(v@, k + 1);
                lemma_dval_step(v@, start as int, k as int);
                assert(dval(v@.subrange(start as int, k + 1)) == wide);
                lemma_dval_prefix_le(v@, start as int, k + 1, e);
                assert(dval(v@.subrange(start as int, e)) > limit);
                assert(p_coord(v@, i as int) is None);
            }
            return None;
        }
        acc = wide as u64;
        k += 1;
        proof {
            lemma_dval_step(v@, start as int, k - 1 as int);
            assert(digits_end(v@, k - 1 as int) == digits_end(v@, k as int));
        }
    }
    proof {
        assert(digits_end(v@, k as int) == k as int);
    }
    if k == start {
        return None;
    }
    let val: i64 = if neg {
        if acc == 9223372036854775808u64 {
            i64::MIN
        } else {
            -(acc as i64)
        }
    } else {
        acc as i64
    };
    Some((Coord::Finite(val), k))
}

fn px_position(v: &Vec<char>, i: usize) -> (r: Option<((Coord, Coord), usize)>)
    ensures
        match r {
            Some(((x, y), j)) => p_position(v@, i as int) == Some(((x, y), j as int)) && i <= j
                <= v@.len(),
            None => p_position(v@, i as int) is None,
        },
{
    let j1 = match px_lit(v, i, "{\"x\": ") {
        Some(j) => j,
        None => {
            return None;
        },
    };
    let (x, j2) = match px_coord(v, j1) {
        Some(p) => p,
        None => {
            return None;
        },
    };
    let j3 = match px_lit(v, j2, ", \"y\": ") {
        Some(j) => j,
        None => {
            return None;
        },
    };
    let (y, j4) = match px_coord(v, j3) {
        Some(p) => p,
        None => {
            return None;
        },
    };
    let j5 = match px_lit(v, j4, "}") {
        Some(j) => j,
        None => {
            return None;
        },
    };
    Some(((x, y), j5))
}

fn px_props(v: &Vec<char>, i: usize, tag: String) -> (r: Option<(crate::model::NodeKind, usize)>)
    ensures
        match r {
            Some((k, j)) => p_props(v@, i as int, tag@) == Some((k@, j as int)) && i <= j
                <= v@.len(),
            None => p_props(v@, i as int, tag@) is None,
        },
{
    let variable_tag: String = String::from_str("variable");
    let print_tag: String = String::from_str("print");
    if tag == variable_tag {
        let j1 = match px_lit(v, i, "{\"name\": ") {
            Some(j) => j,
            None => {
                return None;
            },
        };
        let (name, j2) = match px_string(v, j1) {
            Some(p) => p,
            None => {
                return None;
            },
        };
        let j3 = match px_lit(v, j2, ", \"value\": ") {
            Some(j) => j,
            None => {
                return None;
            },
        };
        let (value, j4) = match px_string(v, j3) {
            Some(p) => p,
            None => {
                return None;
            },
        };
        let j5 = match px_lit(v, j4, "}") {
            Some(j) => j,
            None => {
                return None;
            },
        };
        Some((crate::model::NodeKind::Variable { name, value }, j5))
    } else if tag == print_tag {
        let j1 = match px_lit(v, i, "{\"message\": ") {
            Some(j) => j,
            None => {
                return None;
            },
        };
        let (message, j2) = match px_string(v, j1) {
            Some(p) => p,
            None => {
                return None;
            },
        };
        let j3 = match px_lit(v, j2, "}") {
            Some(j) => j,
            None => {
                return None;
            },
        };
        Some((crate::model::NodeKind::Print { message }, j3))
    } else {
        let j1 = match px_lit(v, i, "{}") {
            Some(j) => j,
            None => {
                return None;
            },
        };
        Some((crate::model::NodeKind::Other { tag }, j1))
    }
}

fn px_node(v: &Vec<char>, i: usize) -> (r: Option<(crate::model::WorkflowNode, usize)>)
    ensures
        match r {
            Some((n, j)) => p_node(v@, i as int) == Some((n@, j as int)) && i <= j <= v@.len(),
            None => p_node(v@, i as int) is None,
        },
{
    let j1 = match px_lit(v, i, "{\"id\": ") {
        Some(j) => j,
        None => {
            return None;
        },
    };
    let (id, j2) = match px_string(v, j1) {
        Some(p) => p,
        None => {
            return None;
        },
    };
    let j3 = match px_lit(v, j2, ", \"position\": ") {
        Some(j) => j,
        None => {
            return None;
        },
    };
    let ((x, y), j4) = match px_position(v, j3) {
        Some(p) => p,
        None => {
            return None;
        },
    };
    let j5 = match px_lit(v, j4, ", \"node_type\": ") {
        Some(j) => j,
        None => {
            return None;
        },
    };
    let (tag, j6) = match px_string(v, j5) {
        Some(p) => p,
        None => {
            return None;
        },
    };
    let j7 = match px_lit(v, j6, ", \"properties\": ") {
        Some(j) => j,
        None => {
            return None;
        },
    };
    let (kind, j8) = match px_props(v, j7, tag) {
        Some(p) => p,
        None => {
            return None;
        },
    };
    let j9 = match px_lit(v, j8, "}") {
        Some(j) => j,
        None => {
            return None;
        },
    };
    let node = crate::model::WorkflowNode {
        id,
        position: crate::model::Position { x, y },
        kind,
    };
    Some((node, j9))
}

fn px_conn(v: &Vec<char>, i: usize) -> (r: Option<(crate::model::Connection, usize)>)
    ensures
        match r {
            Some((c, j)) => p_conn(v@, i as int) == Some((c@, j as int)) && i <= j <= v@.len(),
            None => p_conn(v@, i as int) is None,
        },
{
    let j1 = match px_lit(v, i, "{\"id\": ") {
        Some(j) => j,
        None => {
            return None;
        },
    };
    let (id, j2) = match px_string(v, j1) {
        Some(p) => p,
        None => {
            return None;
        },
    };
    let j3 = match px_lit(v, j2, ", \"source_node\": ") {
        Some(j) => j,
        None => {
            return None;
        },
    };
    let (source_node, j4) = match px_string(v, j3) {
        Some(p) => p,
        None => {
            return None;
        },
    };
    let j5 = match px_lit(v, j4, ", \"target_node\": ") {
        Some(j) => j,
        None => {
            return None;
        },
    };
    let (target_node, j6) = match px_string(v, j5) {
        Some(p) => p,
        None => {
            return None;
        },
    };
    let j7 = match px_lit(v, j6, "}") {
        Some(j) => j,
        None => {
            return None;
        },
    };
    Some((crate::model::Connection { id, source_node, target_node }, j7))
}

fn px_node_list(v: &Vec<char>, i: usize) -> (r: Option<(Vec<crate::model::WorkflowNode>, usize)>)
    ensures
        match r {
            Some((nodes, j)) => p_node_list(v@, i as int) == Some(
                (nodes@.map_values(|n: crate::model::WorkflowNode| n@), j as int),
            ) && i <= j <= v@.len(),
            None => p_node_list(v@, i as int) is None,
        },
    decreases v@.len() - i,
{
    let (n, j) = match px_node(v, i) {
        Some(p) => p,
        None => {
            return None;
        },
    };
    match px_lit(v, j, "]") {
        Some(j2) => {
            let mut out: Vec<crate::model::WorkflowNode> = Vec::new();
            out.push(n);
            proof {
                assert(out@.map_values(|n: crate::model::WorkflowNode| n@) =~= seq![
                    out@[0]@,
                ]);
            }
            Some((out, j2))
        },
        None => {
            let j2 = match px_lit(v, j, ", ") {
                Some(j2) => j2,
                None => {
                    return None;
                },
            };
            if j2 <= i {
                return None;
            }
            match px_node_list(v, j2) {
                Some((rest, k)) => {
                    let mut out = rest;
                    out.insert(0, n);
                    proof {
                        assert(out@.map_values(|n: crate::model::WorkflowNode| n@) =~= seq![
                            out@[0]@,
                        ] + out@.skip(1).map_values(|n: crate::model::WorkflowNode| n@));
                        assert(out@.skip(1) =~= rest@);
                    }
                    Some((out, k))
                },
                None => None,
            }
        },
    }
}

fn px_nodes(v: &Vec<char>, i: usize) -> (r: Option<(Vec<crate::model::WorkflowNode>, usize)>)
    ensures
        match r {
            Some((nodes, j)) => p_nodes(v@, i as int) == Some(
                (nodes@.map_values(|n: crate::model::WorkflowNode| n@), j as int),
            ) && i <= j <= v@.len(),
            None => p_nodes(v@, i as int) is None,
        },
{
    match px_lit(v, i, "[]") {
        Some(j) => {
            let out: Vec<crate::model::WorkflowNode> = Vec::new();
            proof {
                assert(out@.map_values(|n: crate::model::WorkflowNode| n@)
                    =~= Seq::<NodeV>::empty());
            }
            Some((out, j))
        },
        None => {
            let j = match px_lit(v, i, "[") {
                Some(j) => j,
                None => {
                    return None;
                },
            };
            px_node_list(v, j)
        },
    }
}

fn px_conn_list(v: &Vec<char>, i: usize) -> (r: Option<(Vec<crate::model::Connection>, usize)>)
    ensures
        match r {
            Some((conns, j)) => p_conn_list(v@, i as int) == Some(
                (conns@.map_values(|c: crate::model::Connection| c@), j as int),
            ) && i <= j <= v@.len(),
            None => p_conn_list(v@, i as int) is None,
        },
    decreases v@.len() - i,
{
    let (c, j) = match px_conn(v, i) {
        Some(p) => p,
        None => {
            return None;
        },
    };
    match px_lit(v, j, "]") {
        Some(j2) => {
            let mut out: Vec<crate::model::Connection> = Vec::new();
            out.push(c);
            proof {
                assert(out@.map_values(|c: crate::model::Connection| c@) =~= seq![out@[0]@]);
            }
            Some((out, j2))
        },
        None => {
            let j2 = match px_lit(v, j, ", ") {
                Some(j2) => j2,
                None => {
                    return None;
                },
            };
            if j2 <= i {
                return None;
            }
            match px_conn_list(v, j2) {
                Some((rest, k)) => {
                    let mut out = rest;
                    out.insert(0, c);
                    proof {
                        assert(out@.map_values(|c: crate::model::Connection| c@) =~= seq![
                            out@[0]@,
                        ] + out@.skip(1).map_values(|c: crate::model::Connection| c@));
                        assert(out@.skip(1) =~= rest@);
                    }
                    Some((out, k))
                },
                None => None,
            }
        },
    }
}

fn px_conns(v: &Vec<char>, i: usize) -> (r: Option<(Vec<crate::model::Connection>, usize)>)
    ensures
        match r {
            Some((conns, j)) => p_conns(v@, i as int) == Some(
                (conns@.map_values(|c: crate::model::Connection| c@), j as int),
            ) && i <= j <= v@.len(),
            None => p_conns(v@, i as int) is None,
        },
{
    match px_lit(v, i, "[]") {
        Some(j) => {
            let out: Vec<crate::model::Connection> = Vec::new();
            proof {
                assert(out@.map_values(|c: crate::model::Connection| c@)
                    =~= Seq::<ConnV>::empty());
            }
            Some((out, j))
        },
        None => {
            let j = match px_lit(v, i, "[") {
                Some(j) => j,
                None => {
                    return None;
                },
            };
            px_conn_list(v, j)
        },
    }
}

/// Whatever parses is well formed: a catch-all payload can only come out
/// of the parser with a tag that is not a recognized one.
proof fn lemma_p_props_wf(s: Seq<char>, i: int, tag: Seq<char>)
    ensures
        p_props(s, i, tag) matches Some((k, _)) ==> crate::model::kind_wf(k),
{
}

proof fn lemma_p_node_wf(s: Seq<char>, i: int)
    ensures
        p_node(s, i) matches Some((n, _)) ==> crate::model::kind_wf(n.kind),
{
    if p_node(s, i) is Some {
        match p_lit(s, i, "{\"id\": "@) {
            Some(j1) => match p_string(s, j1) {
                Some((id, j2)) => match p_lit(s, j2, ", \"position\": "@) {
                    Some(j3) => match p_position(s, j3) {
                        Some((_, j4)) => match p_lit(s, j4, ", \"node_type\": "@) {
                            Some(j5) => match p_string(s, j5) {
                                Some((tag, j6)) => match p_lit(s, j6, ", \"properties\": "@) {
                                    Some(j7) => {
                                        lemma_p_props_wf(s, j7, tag);
                                    },
                                    None => {
                                    },
                                },
                                None => {
                                },
                            },
                            None => {
                            },
                        },
                        None => {
                        },
                    },
                    None => {
                    },
                },
                None => {
                },
            },
            None => {
            },
        }
    }
}

proof fn lemma_p_node_list_wf(s: Seq<char>, i: int)
    requires
        0 <= i <= s.len(),
    ensures
        p_node_list(s, i) matches Some((ns, _)) ==> forall|k: int|
            0 <= k < ns.len() ==> crate::model::kind_wf((#[trigger] ns[k]).kind),
    decreases s.len() - i,
{
    lemma_p_node_wf(s, i);
    match p_node(s, i) {
        Some((n, j)) => {
            if p_lit(s, j, "]"@) is Some {
            } else {
                match p_lit(s, j, ", "@) {
                    Some(j2) => {
                        if i < j2 {
                            assert(j2 <= s.len());
                            lemma_p_node_list_wf(s, j2);
                            match p_node_list(s, j2) {
                                Some((rest, _)) => {
                                    assert(forall|k: int|
                                        1 <= k < rest.len() + 1 ==> (seq![n] + rest)[k]
                                            == rest[k - 1]);
                                },
                                None => {
                                },
                            }
                        }
                    },
                    None => {
                    },
                }
            }
        },
        None => {
        },
    }
}

/// A parsed document is always a well-formed workflow.
pub proof fn lemma_parse_wf(s: Seq<char>)
    ensures
        p_workflow(s) matches Some(w) ==> crate::model::workflow_wf(w),
{
    if p_workflow(s) is Some {
        match p_lit(s, 0, "{\n  \"id\": "@) {
            Some(j1) => match p_string(s, j1) {
                Some((_, j2)) => match p_lit(s, j2, ",\n  \"name\": "@) {
                    Some(j3) => match p_string(s, j3) {
                        Some((_, j4)) => match p_lit(s, j4, ",\n  \"nodes\": "@) {
                            Some(j5) => {
                                if p_lit(s, j5, "[]"@) is Some {
                                } else {
                                    match p_lit(s, j5, "["@) {
                                        Some(j) => {
                                            lemma_p_node_list_wf(s, j);
                                        },
                                        None => {
                                        },
                                    }
                                }
                            },
                            None => {
                            },
                        },
                        None => {
                        },
                    },
                    None => {
                    },
                },
                None => {
                },
            },
            None => {
            },
        }
    }
}

/// Reads a workflow back from its textual document. Anything that is not
/// exactly a rendered workflow is rejected with a descriptive error. A
/// workflow that is read back is well formed, so serializing it again
/// and reading that text restores it (the round-trip law applies to it).
pub fn deserialize_workflow(s: &str) -> (r: Result<crate::model::Workflow, String>)
    ensures
        match p_workflow(s@) {
            Some(v) => r is Ok && r->Ok_0@ == v && crate::model::workflow_wf(v),
            None => r is Err,
        },
{
    proof {
        lemma_parse_wf(s@);
    }
    let v = to_chars(s);
    let err = "Failed to parse workflow: malformed or non-canonical document";
    let j1 = match px_lit(&v, 0, "{\n  \"id\": ") {
        Some(j) => j,
        None => {
            return Err(String::from_str(err));
        },
    };
    let (id, j2) = match px_string(&v, j1) {
        Some(p) => p,
        None => {
            return Err(String::from_str(err));
        },
    };
    let j3 = match px_lit(&v, j2, ",\n  \"name\": ") {
        Some(j) => j,
        None => {
            return Err(String::from_str(err));
        },
    };
    let (name, j4) = match px_string(&v, j3) {
        Some(p) => p,
        None => {
            return Err(String::from_str(err));
        },
    };
    let j5 = match px_lit(&v, j4, ",\n  \"nodes\": ") {
        Some(j) => j,
        None => {
            return Err(String::from_str(err));
        },
    };
    let (nodes, j6) = match px_nodes(&v, j5) {
        Some(p) => p,
        None => {
            return Err(String::from_str(err));
        },
    };
    let j7 = match px_lit(&v, j6, ",\n  \"connections\": ") {
        Some(j) => j,
        None => {
            return Err(String::from_str(err));
        },
    };
    let (connections, j8) = match px_conns(&v, j7) {
        Some(p) => p,
        None => {
            return Err(String::from_str(err));
        },
    };
    let j9 = match px_lit(&v, j8, "\n}") {
        Some(j) => j,
        None => {
            return Err(String::from_str(err));
        },
    };
    if j9 != v.len() {
        return Err(String::from_str(err));
    }
    let w = crate::model::Workflow { id, name, nodes, connections };
    proof {
        assert(w@ =~= p_workflow(s@)->0);
    }
    Ok(w)
}

} // verus!
