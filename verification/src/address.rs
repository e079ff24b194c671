//! IPv4 targets and the dotted-decimal text they are written in.

use vstd::prelude::*;
use vstd::string::*;

verus! {

/// One IPv4 host address, most significant octet first.
#[derive(Clone, Copy, Debug, PartialEq, Eq, Structural)]
pub struct Target {
    pub a: u8,
    pub b: u8,
    pub c: u8,
    pub d: u8,
}

impl Target {
    /// The address as a number: targets are ordered by it.
    pub open spec fn value(self) -> nat {
        (self.a as nat) * 16777216 + (self.b as nat) * 65536 + (self.c as nat) * 256 + (
        self.d as nat)
    }

    pub fn new(a: u8, b: u8, c: u8, d: u8) -> (t: Target)
        ensures
            t == (Target { a, b, c, d }),
    {
        Target { a, b, c, d }
    }

    pub fn to_u32(&self) -> (v: u32)
        ensures
            v == self.value(),
    {
        (self.a as u32) * 16777216 + (self.b as u32) * 65536 + (self.c as u32) * 256 + (
        self.d as u32)
    }

    /// Whether this address comes strictly before `other`.
    pub fn precedes(&self, other: &Target) -> (r: bool)
        ensures
            r == (self.value() < other.value()),
    {
        self.to_u32() < other.to_u32()
    }

    /// Reads an address written as four decimal octets separated by dots.
    pub fn parse(text: &str) -> (r: Option<Target>)
        ensures
            r == parse_target(text@),
    {
        match scan_octets(text, 4) {
            Some(o) => Some(Target { a: o[0], b: o[1], c: o[2], d: o[3] }),
            None => None,
        }
    }

    /// Reads the first three octets of a /24 network, written as `a.b.c`.
    pub fn parse_prefix(text: &str) -> (r: Option<(u8, u8, u8)>)
        ensures
            r == parse_prefix(text@),
    {
        match scan_octets(text, 3) {
            Some(o) => Some((o[0], o[1], o[2])),
            None => None,
        }
    }
}

/// Two targets with the same number are the same target.
pub proof fn lemma_value_injective(x: Target, y: Target)
    requires
        x.value() == y.value(),
    ensures
        x == y,
{
}

pub open spec fn is_digit(c: char) -> bool {
    48 <= c as int <= 57
}

pub open spec fn digit_value(c: char) -> nat {
    (c as int - 48) as nat
}

/// The number that a string of digits writes, most significant digit first.
pub open spec fn decimal(s: Seq<char>) -> nat
    decreases s.len(),
{
    if s.len() == 0 {
        0
    } else {
        10 * decimal(s.drop_last()) + digit_value(s.last())
    }
}

pub open spec fn all_digits(s: Seq<char>) -> bool {
    forall|i: int| 0 <= i < s.len() ==> is_digit(#[trigger] s[i])
}

/// What the text of an octet looks like while more digits may still follow:
/// at most three digits, no zero in front of another digit, at most 255.
pub open spec fn octet_prefix(s: Seq<char>) -> bool {
    &&& s.len() <= 3
    &&& all_digits(s)
    &&& (s.len() > 1 ==> s[0] != '0')
    &&& decimal(s) <= 255
}

/// The text of one octet.
pub open spec fn is_octet(s: Seq<char>) -> bool {
    s.len() >= 1 && octet_prefix(s)
}

/// The pieces of `s` between its dots, in order. A string without a dot is
/// one piece; a dot at either end leaves an empty piece there.
pub open spec fn fields(s: Seq<char>) -> Seq<Seq<char>>
    decreases s.len(),
{
    if s.len() == 0 {
        seq![Seq::<char>::empty()]
    } else {
        let before = fields(s.drop_last());
        if s.last() == '.' {
            before.push(Seq::<char>::empty())
        } else {
            before.update(before.len() - 1, before.last().push(s.last()))
        }
    }
}

/// The octets that `s` writes, if every piece between its dots is an octet.
pub open spec fn parse_octets(s: Seq<char>) -> Option<Seq<u8>> {
    let f = fields(s);
    if forall|i: int| 0 <= i < f.len() ==> is_octet(#[trigger] f[i]) {
        Some(Seq::new(f.len(), |i: int| decimal(f[i]) as u8))
    } else {
        None
    }
}

/// The address that `s` writes: exactly four octets.
pub open spec fn parse_target(s: Seq<char>) -> Option<Target> {
    match parse_octets(s) {
        Some(o) => if o.len() == 4 {
            Some(Target { a: o[0], b: o[1], c: o[2], d: o[3] })
        } else {
            None
        },
        None => None,
    }
}

/// The first three octets of a /24 network, written as `a.b.c`.
pub open spec fn parse_prefix(s: Seq<char>) -> Option<(u8, u8, u8)> {
    match parse_octets(s) {
        Some(o) => if o.len() == 3 {
            Some((o[0], o[1], o[2]))
        } else {
            None
        },
        None => None,
    }
}

/// The pieces written one after the other with a dot between each two.
pub open spec fn join(pieces: Seq<Seq<char>>) -> Seq<char>
    decreases pieces.len(),
{
    if pieces.len() == 0 {
        Seq::empty()
    } else if pieces.len() == 1 {
        pieces[0]
    } else {
        join(pieces.drop_last()) + seq!['.'] + pieces.last()
    }
}

pub open spec fn dot_free(s: Seq<char>) -> bool {
    forall|i: int| 0 <= i < s.len() ==> #[trigger] s[i] != '.'
}

/// Splitting undoes nothing: a string is its pieces with the dots put back,
/// and no piece holds a dot.
pub proof fn lemma_join_fields(s: Seq<char>)
    ensures
        fields(s).len() >= 1,
        join(fields(s)) == s,
        forall|i: int| 0 <= i < fields(s).len() ==> dot_free(#[trigger] fields(s)[i]),
    decreases s.len(),
{
    if s.len() > 0 {
        let before = fields(s.drop_last());
        lemma_join_fields(s.drop_last());
        if s.last() == '.' {
            assert(before.push(Seq::<char>::empty()).drop_last() =~= before);
            assert(join(before) + seq!['.'] + Seq::<char>::empty() =~= s);
        } else {
            let after = before.update(before.len() - 1, before.last().push(s.last()));
            if before.len() == 1 {
                assert(before[0].push(s.last()) =~= s);
            } else {
                assert(after.drop_last() =~= before.drop_last());
                let head = join(before.drop_last()) + seq!['.'];
                assert(join(before) == head + before.last());
                assert(s =~= s.drop_last().push(s.last()));
                assert(head + before.last().push(s.last()) =~= (head + before.last()).push(
                    s.last(),
                ));
            }
        }
    }
}

/// Text without a dot after `s` adds to the last piece of `s`.
proof fn lemma_fields_append(s: Seq<char>, tail: Seq<char>)
    requires
        dot_free(tail),
    ensures
        fields(s).len() >= 1,
        fields(s + tail) == fields(s).update(fields(s).len() - 1, fields(s).last() + tail),
    decreases tail.len(),
{
    lemma_fields_nonempty(s);
    if tail.len() == 0 {
        assert(s + tail =~= s);
        assert(fields(s).last() + tail =~= fields(s).last());
        assert(fields(s).update(fields(s).len() - 1, fields(s).last()) =~= fields(s));
    } else {
        let init = tail.drop_last();
        lemma_fields_append(s, init);
        assert((s + tail).drop_last() =~= s + init);
        assert((s + tail).last() == tail.last());
        assert(tail.last() == tail[tail.len() - 1]);
        assert((fields(s).last() + init).push(tail.last()) =~= fields(s).last() + tail);
        assert(fields(s + tail) =~= fields(s).update(
            fields(s).len() - 1,
            fields(s).last() + tail,
        ));
    }
}

/// Joining undoes nothing either: the pieces of a joined string are the
/// pieces that were joined, where none of them holds a dot.
pub proof fn lemma_fields_join(pieces: Seq<Seq<char>>)
    requires
        pieces.len() >= 1,
        forall|i: int| 0 <= i < pieces.len() ==> dot_free(#[trigger] pieces[i]),
    ensures
        fields(join(pieces)) == pieces,
    decreases pieces.len(),
{
    let empty = Seq::<char>::empty();
    if pieces.len() == 1 {
        lemma_fields_append(empty, pieces[0]);
        assert(empty + pieces[0] =~= pieces[0]);
        assert(fields(empty) =~= seq![empty]);
        assert(fields(join(pieces)) =~= pieces);
    } else {
        let init = pieces.drop_last();
        lemma_fields_join(init);
        let dotted = join(init).push('.');
        assert(dotted.drop_last() =~= join(init));
        assert(fields(dotted) == init.push(empty));
        lemma_fields_append(dotted, pieces.last());
        assert(join(pieces) =~= dotted + pieces.last());
        assert(empty + pieces.last() =~= pieces.last());
        assert(fields(join(pieces)) =~= pieces);
    }
}

/// Octets written one after the other with dots between them are read as
/// those octets, and nothing else is: see `lemma_join_fields`.
pub proof fn lemma_parse_join(pieces: Seq<Seq<char>>)
    requires
        pieces.len() >= 1,
        forall|i: int| 0 <= i < pieces.len() ==> is_octet(#[trigger] pieces[i]),
    ensures
        parse_octets(join(pieces)) == Some(
            Seq::new(pieces.len(), |i: int| decimal(pieces[i]) as u8),
        ),
{
    assert forall|i: int| 0 <= i < pieces.len() implies dot_free(#[trigger] pieces[i]) by {
        let piece = pieces[i];
        assert(is_octet(piece));
        assert forall|k: int| 0 <= k < piece.len() implies #[trigger] piece[k] != '.' by {
            assert(is_digit(piece[k]));
        }
    }
    lemma_fields_join(pieces);
    assert(parse_octets(join(pieces)).unwrap() =~= Seq::new(
        pieces.len(),
        |i: int| decimal(pieces[i]) as u8,
    ));
}

/// The texts of four octets with dots between them write the address of
/// those octets.
pub proof fn lemma_dotted_quad(a: Seq<char>, b: Seq<char>, c: Seq<char>, d: Seq<char>)
    requires
        is_octet(a),
        is_octet(b),
        is_octet(c),
        is_octet(d),
    ensures
        parse_target(a + seq!['.'] + b + seq!['.'] + c + seq!['.'] + d) == Some(
            Target {
                a: decimal(a) as u8,
                b: decimal(b) as u8,
                c: decimal(c) as u8,
                d: decimal(d) as u8,
            },
        ),
{
    let pieces = seq![a, b, c, d];
    lemma_parse_join(pieces);
    reveal_with_fuel(join, 4);
    assert(pieces.drop_last() =~= seq![a, b, c]);
    assert(pieces.drop_last().drop_last() =~= seq![a, b]);
    assert(pieces.drop_last().drop_last().drop_last() =~= seq![a]);
    assert(join(pieces) =~= a + seq!['.'] + b + seq!['.'] + c + seq!['.'] + d);
}

proof fn lemma_fields_nonempty(s: Seq<char>)
    ensures
        fields(s).len() >= 1,
    decreases s.len(),
{
    if s.len() > 0 {
        lemma_fields_nonempty(s.drop_last());
    }
}

/// Reading further only adds to the last piece or opens new ones.
proof fn lemma_fields_extend(s: Seq<char>, n: int)
    requires
        0 <= n <= s.len(),
    ensures
        fields(s.take(n)).len() >= 1,
        fields(s).len() >= fields(s.take(n)).len(),
        forall|j: int|
            0 <= j < fields(s.take(n)).len() - 1 ==> #[trigger] fields(s)[j] == fields(
                s.take(n),
            )[j],
        ({
            let p = fields(s.take(n));
            let q = fields(s)[p.len() - 1];
            q.len() >= p.last().len() && q.take(p.last().len() as int) == p.last()
        }),
    decreases s.len() - n,
{
    lemma_fields_nonempty(s.take(n));
    if n == s.len() {
        assert(s.take(n) =~= s);
    } else {
        lemma_fields_extend(s, n + 1);
        let t = s.take(n + 1);
        assert(t.drop_last() =~= s.take(n));
        let p = fields(s.take(n));
        let more = fields(t);
        if t.last() == '.' {
            assert(more == p.push(Seq::<char>::empty()));
            assert(fields(s)[p.len() - 1] == more[p.len() - 1]);
        } else {
            let piece = fields(s)[more.len() - 1];
            assert(piece.take(p.last().len() as int) =~= piece.take(more.last().len() as int).take(
                p.last().len() as int,
            ));
            assert(more.last().take(p.last().len() as int) =~= p.last());
        }
    }
}

proof fn lemma_decimal_grows(s: Seq<char>, n: int)
    requires
        0 <= n <= s.len(),
    ensures
        decimal(s.take(n)) <= decimal(s),
    decreases s.len() - n,
{
    if n == s.len() {
        assert(s.take(n) =~= s);
    } else {
        lemma_decimal_grows(s, n + 1);
        assert(s.take(n + 1).drop_last() =~= s.take(n));
    }
}

/// Text that cannot start an octet cannot become one by adding to it.
proof fn lemma_octet_prefix_closed(s: Seq<char>, n: int)
    requires
        0 <= n <= s.len(),
        octet_prefix(s),
    ensures
        octet_prefix(s.take(n)),
{
    lemma_decimal_grows(s, n);
}

/// A string one piece of which cannot be an octet writes no octets.
proof fn lemma_bad_piece(s: Seq<char>, n: int)
    requires
        0 <= n <= s.len(),
        ({
            let p = fields(s.take(n));
            ||| !octet_prefix(p.last())
            ||| exists|j: int| 0 <= j < p.len() - 1 && !is_octet(#[trigger] p[j])
        }),
    ensures
        parse_octets(s) is None,
{
    lemma_fields_extend(s, n);
    let p = fields(s.take(n));
    let f = fields(s);
    if !octet_prefix(p.last()) {
        let q = f[p.len() - 1];
        if octet_prefix(q) {
            lemma_octet_prefix_closed(q, p.last().len() as int);
        }
    } else {
        let j = choose|j: int| 0 <= j < p.len() - 1 && !is_octet(#[trigger] p[j]);
        assert(!is_octet(f[j]));
    }
}

/// Reads `text` as exactly `count` octets separated by dots.
fn scan_octets(text: &str, count: usize) -> (r: Option<Vec<u8>>)
    requires
        count >= 1,
    ensures
        match parse_octets(text@) {
            Some(o) => if o.len() == count {
                r matches Some(v) && v@ == o
            } else {
                r is None
            },
            None => r is None,
        },
{
    let n = text.unicode_len();
    let mut done: Vec<u8> = Vec::new();
    let mut cur: u32 = 0;
    let mut digits: usize = 0;
    let mut i: usize = 0;
    while i < n
        invariant
            n == text@.len(),
            0 <= i <= n,
            count >= 1,
            done.len() < count,
            fields(text@.take(i as int)).len() == done.len() + 1,
            forall|j: int|
                0 <= j < done.len() ==> is_octet(#[trigger] fields(text@.take(i as int))[j])
                    && done[j] == decimal(fields(text@.take(i as int))[j]),
            octet_prefix(fields(text@.take(i as int)).last()),
            digits == fields(text@.take(i as int)).last().len(),
            cur == decimal(fields(text@.take(i as int)).last()),
        decreases n - i,
    {
        let c = text.get_char(i);
        let code = c as u32;
        let ghost p = fields(text@.take(i as int));
        let ghost t = text@.take(i + 1);
        let ghost more = fields(t);
        proof {
            assert(t.drop_last() =~= text@.take(i as int));
        }
        if code == 46 {
            if digits == 0 {
                proof {
                    assert(!is_octet(more[p.len() - 1]));
                    lemma_bad_piece(text@, i + 1);
                }
                return None;
            }
            if done.len() + 1 == count {
                proof {
                    lemma_fields_extend(text@, i + 1);
                }
                return None;
            }
            done.push(cur as u8);
            cur = 0;
            digits = 0;
        } else {
            proof {
                assert(more.last().drop_last() =~= p.last());
                assert(more.last()[0] == if digits == 0 {
                    c
                } else {
                    p.last()[0]
                });
            }
            if code < 48 || code > 57 || digits >= 3 || (digits == 1 && cur == 0) {
                proof {
                    lemma_bad_piece(text@, i + 1);
                }
                return None;
            }
            let next = cur * 10 + (code - 48);
            if next > 255 {
                proof {
                    lemma_bad_piece(text@, i + 1);
                }
                return None;
            }
            proof {
                assert(decimal(more.last()) == next);
                if digits == 1 {
                    assert(decimal(p.last().drop_last()) == 0);
                }
                assert(octet_prefix(more.last()));
            }
            cur = next;
            digits = digits + 1;
        }
        i = i + 1;
    }
    proof {
        assert(text@.take(n as int) =~= text@);
    }
    let ghost f = fields(text@);
    if digits == 0 {
        return None;
    }
    if done.len() + 1 != count {
        return None;
    }
    done.push(cur as u8);
    proof {
        assert forall|j: int| 0 <= j < f.len() implies is_octet(#[trigger] f[j]) by {
            if j == f.len() - 1 {
                assert(f[j] == f.last());
            }
        }
    }
    Some(done)
}

} // verus!
