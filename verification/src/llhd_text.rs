//! Which LLHD assembly texts are read: a line-by-line description of the
//! structural subset of the assembly that the reader hands to the `llhd`
//! parser, and a verified check of it.
//!
//! The subset holds entities made of signals (`sig`), drives (`drv`),
//! instances (`inst`) and binary operations on integers, and functions and
//! processes with empty bodies. Within it every name is declared once in its
//! scope and before it is used, every integer width has at most nine
//! digits, a drive drives a signal of integers, an instance names an entity
//! declared before it and passes it no more operands than it takes, and
//! every constant stands where an integer of known width is expected.
use vstd::prelude::*;

verus! {

/// A declared unit: where its name starts and ends in the text, its numbers
/// of inputs and outputs, and whether it is an entity.
pub type UnitDecl = (usize, usize, usize, usize, bool);

/// A declared local value: where its name starts and ends in the text, and
/// whether it is a signal carrying integers.
pub type LocalDecl = (usize, usize, bool);

/// What has been read so far: the units, the locals of the unit being read,
/// and where the reading stands (0: between units; 1: in the body of an
/// entity; 2: in the empty body of a function or process).
pub type TextState = (Seq<UnitDecl>, Seq<LocalDecl>, u8);

/// A space, bracket, comma, `=`, `;` or line break: a character that ends a
/// name or a number.
pub open spec fn stop_char(c: char) -> bool {
    c == ' ' || c == '(' || c == ')' || c == ',' || c == '=' || c == ';' || c == '\n'
}

/// An ASCII letter or digit, or `_`.
pub open spec fn name_char(c: char) -> bool {
    ('a' <= c && c <= 'z') || ('A' <= c && c <= 'Z') || ('0' <= c && c <= '9') || c == '_'
}

/// An ASCII digit.
pub open spec fn digit_char(c: char) -> bool {
    '0' <= c && c <= '9'
}

/// Whether position `q` of `t` is its end or holds a stop character.
pub open spec fn stops(t: Seq<char>, q: int) -> bool {
    q == t.len() || (0 <= q < t.len() && stop_char(t[q]))
}

/// Whether position `q` of `t` holds `c`.
pub open spec fn at(t: Seq<char>, q: int, c: char) -> bool {
    0 <= q < t.len() && t[q] == c
}

/// The end of the run of spaces from `p`.
pub open spec fn spaces_end(t: Seq<char>, p: int) -> int
    decreases t.len() - p,
{
    if 0 <= p < t.len() && t[p] == ' ' {
        spaces_end(t, p + 1)
    } else {
        p
    }
}

/// The end of the run of name characters from `p`.
pub open spec fn name_end(t: Seq<char>, p: int) -> int
    decreases t.len() - p,
{
    if 0 <= p < t.len() && name_char(t[p]) {
        name_end(t, p + 1)
    } else {
        p
    }
}

/// The end of the run of digits from `p`.
pub open spec fn digits_end(t: Seq<char>, p: int) -> int
    decreases t.len() - p,
{
    if 0 <= p < t.len() && digit_char(t[p]) {
        digits_end(t, p + 1)
    } else {
        p
    }
}

/// The end of the line from `p`: the next line break, or the end of `t`.
pub open spec fn line_end(t: Seq<char>, p: int) -> int
    decreases t.len() - p,
{
    if 0 <= p < t.len() && t[p] != '\n' {
        line_end(t, p + 1)
    } else {
        p
    }
}

/// Whether `w` stands in `t` at `p`.
pub open spec fn word_at(t: Seq<char>, p: int, w: Seq<char>) -> bool {
    0 <= p && p + w.len() <= t.len() && t.subrange(p, p + w.len()) == w
}

/// Whether `w` stands in `t` at `p`, followed by a space.
pub open spec fn keyword_at(t: Seq<char>, p: int, w: Seq<char>) -> bool {
    word_at(t, p, w) && at(t, p + w.len(), ' ')
}

/// Whether the rest of the line from `p` to `e` holds only spaces and
/// perhaps a comment.
pub open spec fn rest_ok(t: Seq<char>, p: int, e: int) -> bool {
    let q = spaces_end(t, p);
    q == e || (q < e && at(t, q, ';'))
}

/// The end of the name introduced by `sigil` at `p`, or -1.
pub open spec fn name_tok(t: Seq<char>, p: int, sigil: char) -> int {
    let q = name_end(t, p + 1);
    if at(t, p, sigil) && q > p + 1 && stops(t, q) {
        q
    } else {
        -1
    }
}

/// The end of the type at `p` (`void`, `time`, or `i` and one to nine
/// digits, perhaps followed by `$`), or -1.
pub open spec fn ty_end(t: Seq<char>, p: int) -> int {
    let d = digits_end(t, p + 1);
    let base = if word_at(t, p, seq!['v', 'o', 'i', 'd']) || word_at(t, p, seq!['t', 'i', 'm', 'e']) {
        p + 4
    } else if at(t, p, 'i') && p + 1 < d && d <= p + 10 {
        d
    } else {
        -1
    };
    if base < 0 {
        -1
    } else if at(t, base, '$') && stops(t, base + 1) {
        base + 1
    } else if stops(t, base) {
        base
    } else {
        -1
    }
}

/// Whether the type from `p` to `q` is a signal carrying integers.
pub open spec fn ty_int_signal(t: Seq<char>, p: int, q: int) -> bool {
    at(t, p, 'i') && at(t, q - 1, '$')
}

/// Whether the type from `p` to `q` is an integer type.
pub open spec fn ty_int(t: Seq<char>, p: int, q: int) -> bool {
    at(t, p, 'i') && !at(t, q - 1, '$')
}

/// Whether the text from `s1` to `e1` equals the text from `s2` to `e2`.
pub open spec fn same_text(t: Seq<char>, s1: int, e1: int, s2: int, e2: int) -> bool {
    t.subrange(s1, e1) == t.subrange(s2, e2)
}

/// Whether a local named like the text from `s` to `e` is declared.
pub open spec fn local_declared(t: Seq<char>, locals: Seq<LocalDecl>, s: int, e: int) -> bool {
    exists|k: int|
        0 <= k < locals.len() && same_text(t, locals[k].0 as int, locals[k].1 as int, s, e)
}

/// Whether a local named like the text from `s` to `e` is declared as a
/// signal carrying integers.
pub open spec fn local_int_signal(t: Seq<char>, locals: Seq<LocalDecl>, s: int, e: int) -> bool {
    exists|k: int|
        0 <= k < locals.len() && same_text(t, locals[k].0 as int, locals[k].1 as int, s, e)
            && locals[k].2
}

/// Whether a unit named like the text from `s` to `e` is declared.
pub open spec fn unit_declared(t: Seq<char>, units: Seq<UnitDecl>, s: int, e: int) -> bool {
    exists|k: int|
        0 <= k < units.len() && same_text(t, units[k].0 as int, units[k].1 as int, s, e)
}

/// Whether an entity named like the text from `s` to `e`, taking at least
/// `n_in` inputs and `n_out` outputs, is declared.
pub open spec fn entity_fits_operands(
    t: Seq<char>,
    units: Seq<UnitDecl>,
    s: int,
    e: int,
    n_in: int,
    n_out: int,
) -> bool {
    exists|k: int|
        0 <= k < units.len() && same_text(t, units[k].0 as int, units[k].1 as int, s, e)
            && units[k].4 && n_in <= units[k].2 && n_out <= units[k].3
}

/// The arguments from `p` up to and past the closing `)`: each a type,
/// spaces and a local name that no argument before it has, separated by `,`
/// and spaces. The position after `)` and the arguments read, appended to
/// `acc`.
pub open spec fn args_from(t: Seq<char>, p: int, acc: Seq<LocalDecl>) -> Option<(int, Seq<LocalDecl>)>
    decreases t.len() - p,
{
    let te = ty_end(t, p);
    let ns = spaces_end(t, te);
    let ne = name_tok(t, ns, '%');
    if te < 0 || !at(t, te, ' ') || ne < 0 || local_declared(t, acc, ns + 1, ne) {
        None
    } else {
        let acc2 = acc.push(((ns + 1) as usize, ne as usize, ty_int_signal(t, p, te)));
        if at(t, ne, ')') {
            Some((ne + 1, acc2))
        } else if at(t, ne, ',') {
            let next = spaces_end(t, ne + 1);
            if next <= p || next > t.len() {
                None
            } else {
                args_from(t, next, acc2)
            }
        } else {
            None
        }
    }
}

/// An argument list at `p`: `()` or `(` arguments `)`, appended to `acc`
/// under names that `acc` does not hold.
pub open spec fn arg_list(t: Seq<char>, p: int, acc: Seq<LocalDecl>) -> Option<(int, Seq<LocalDecl>)> {
    if !at(t, p, '(') {
        None
    } else if at(t, p + 1, ')') {
        Some((p + 2, acc))
    } else {
        args_from(t, p + 1, acc)
    }
}

/// The end of the value at `p`: a declared local, or an integer constant
/// (a `-` perhaps, and digits); -1 where there is none.
pub open spec fn value_end(t: Seq<char>, p: int, locals: Seq<LocalDecl>) -> int {
    let ne = name_tok(t, p, '%');
    let ds = if at(t, p, '-') {
        p + 1
    } else {
        p
    };
    let de = digits_end(t, ds);
    if ne >= 0 {
        if local_declared(t, locals, p + 1, ne) {
            ne
        } else {
            -1
        }
    } else if de > ds && stops(t, de) {
        de
    } else {
        -1
    }
}

/// Operands from `p` up to and past the closing `)`: declared locals
/// separated by `,` and spaces. The position after `)` and the number of
/// operands, counting from `n`.
pub open spec fn ops_from(t: Seq<char>, p: int, locals: Seq<LocalDecl>, n: int) -> Option<(int, int)>
    decreases t.len() - p,
{
    let ne = name_tok(t, p, '%');
    if ne < 0 || !local_declared(t, locals, p + 1, ne) {
        None
    } else if at(t, ne, ')') {
        Some((ne + 1, n + 1))
    } else if at(t, ne, ',') {
        let next = spaces_end(t, ne + 1);
        if next <= p || next > t.len() {
            None
        } else {
            ops_from(t, next, locals, n + 1)
        }
    } else {
        None
    }
}

/// An operand list at `p`: `()` or `(` operands `)`.
pub open spec fn ops_list(t: Seq<char>, p: int, locals: Seq<LocalDecl>) -> Option<(int, int)> {
    if !at(t, p, '(') {
        None
    } else if at(t, p + 1, ')') {
        Some((p + 2, 0))
    } else {
        ops_from(t, p + 1, locals, 0)
    }
}

/// Whether a binary operation's name stands at `p`, followed by a space.
pub open spec fn binary_op_at(t: Seq<char>, p: int) -> bool {
    ||| keyword_at(t, p, seq!['a', 'd', 'd'])
    ||| keyword_at(t, p, seq!['s', 'u', 'b'])
    ||| keyword_at(t, p, seq!['m', 'u', 'l'])
    ||| keyword_at(t, p, seq!['d', 'i', 'v'])
    ||| keyword_at(t, p, seq!['m', 'o', 'd'])
    ||| keyword_at(t, p, seq!['r', 'e', 'm'])
    ||| keyword_at(t, p, seq!['s', 'h', 'l'])
    ||| keyword_at(t, p, seq!['s', 'h', 'r'])
    ||| keyword_at(t, p, seq!['a', 'n', 'd'])
    ||| keyword_at(t, p, seq!['x', 'o', 'r'])
    ||| keyword_at(t, p, seq!['o', 'r'])
}

/// The instruction at `k` of a line ending at `e` in an entity body: where
/// it is one of the subset, whether its value is a signal carrying integers.
pub open spec fn inst_at(t: Seq<char>, k: int, e: int, units: Seq<UnitDecl>, locals: Seq<LocalDecl>) -> Option<bool> {
    if keyword_at(t, k, seq!['s', 'i', 'g']) {
        let ts = spaces_end(t, k + 3);
        let te = ty_end(t, ts);
        if te >= 0 && rest_ok(t, te, e) {
            Some(ty_int(t, ts, te))
        } else {
            None
        }
    } else if keyword_at(t, k, seq!['d', 'r', 'v']) {
        let a = spaces_end(t, k + 3);
        let ae = name_tok(t, a, '%');
        let v = spaces_end(t, ae);
        let ve = value_end(t, v, locals);
        if ae >= 0 && local_int_signal(t, locals, a + 1, ae) && at(t, ae, ' ') && ve >= 0 && rest_ok(t, ve, e) {
            Some(false)
        } else {
            None
        }
    } else if keyword_at(t, k, seq!['i', 'n', 's', 't']) {
        let g = spaces_end(t, k + 4);
        let ge = name_tok(t, g, '@');
        if ge < 0 || !at(t, ge, ' ') {
            None
        } else {
            match ops_list(t, spaces_end(t, ge), locals) {
                None => None,
                Some((x1, n1)) => match ops_list(t, spaces_end(t, x1), locals) {
                    None => None,
                    Some((x2, n2)) => if rest_ok(t, x2, e) && entity_fits_operands(t, units, g + 1, ge, n1, n2) {
                        Some(false)
                    } else {
                        None
                    },
                },
            }
        }
    } else if binary_op_at(t, k) {
        let ts = spaces_end(t, if at(t, k + 2, ' ') { k + 2 } else { k + 3 });
        let te = ty_end(t, ts);
        let v1 = spaces_end(t, te);
        let v1e = value_end(t, v1, locals);
        let v2 = spaces_end(t, v1e);
        let v2e = value_end(t, v2, locals);
        if te >= 0 && ty_int(t, ts, te) && at(t, te, ' ') && v1e >= 0 && at(t, v1e, ' ') && v2e >= 0
            && rest_ok(t, v2e, e) {
            Some(false)
        } else {
            None
        }
    } else {
        None
    }
}

/// The state after a unit header at `q` of a line ending at `e`, read
/// between units.
pub open spec fn header_step(t: Seq<char>, q: int, e: int, units: Seq<UnitDecl>) -> Option<TextState> {
    let is_entity = keyword_at(t, q, seq!['e', 'n', 't', 'i', 't', 'y']);
    let is_proc = keyword_at(t, q, seq!['p', 'r', 'o', 'c']);
    let is_func = keyword_at(t, q, seq!['f', 'u', 'n', 'c']);
    let n0 = spaces_end(t, if is_entity { q + 6 } else { q + 4 });
    let ne = name_tok(t, n0, '@');
    if !(is_entity || is_proc || is_func) || ne < 0 || unit_declared(t, units, n0 + 1, ne) {
        None
    } else {
        match arg_list(t, spaces_end(t, ne), Seq::empty()) {
            None => None,
            Some((x1, ins)) => {
                let second = if is_func {
                    let te = ty_end(t, spaces_end(t, x1));
                    if te < 0 {
                        None
                    } else {
                        Some((te, ins))
                    }
                } else {
                    arg_list(t, spaces_end(t, x1), ins)
                };
                match second {
                    None => None,
                    Some((x2, args)) => {
                        let b = spaces_end(t, x2);
                        if at(t, b, '{') && rest_ok(t, b + 1, e) {
                            Some(
                                (
                                    units.push(
                                        (
                                            (n0 + 1) as usize,
                                            ne as usize,
                                            ins.len() as usize,
                                            (args.len() - ins.len()) as usize,
                                            is_entity,
                                        ),
                                    ),
                                    args,
                                    if is_entity {
                                        1u8
                                    } else {
                                        2u8
                                    },
                                ),
                            )
                        } else {
                            None
                        }
                    },
                }
            },
        }
    }
}

/// The state after the line from `p` to `e`, read in the state `st`.
pub open spec fn line_step(t: Seq<char>, p: int, e: int, st: TextState) -> Option<TextState> {
    let q = spaces_end(t, p);
    let (units, locals, mode) = st;
    if q == e || at(t, q, ';') {
        Some(st)
    } else if mode == 0 {
        header_step(t, q, e, units)
    } else if at(t, q, '}') {
        if rest_ok(t, q + 1, e) {
            Some((units, Seq::empty(), 0u8))
        } else {
            None
        }
    } else if mode == 2 {
        None
    } else if at(t, q, '%') {
        let rn = name_tok(t, q, '%');
        let r1 = spaces_end(t, rn);
        let k = spaces_end(t, r1 + 1);
        if rn < 0 || !at(t, r1, '=') || local_declared(t, locals, q + 1, rn) {
            None
        } else {
            match inst_at(t, k, e, units, locals) {
                None => None,
                Some(c) => Some((units, locals.push(((q + 1) as usize, rn as usize, c)), mode)),
            }
        }
    } else {
        match inst_at(t, q, e, units, locals) {
            None => None,
            Some(_) => Some(st),
        }
    }
}

/// Whether the lines of `t` from `p` on are read from the state `st`,
/// ending between units.
pub open spec fn text_from(t: Seq<char>, p: int, st: TextState) -> bool
    decreases t.len() - p,
{
    let e = line_end(t, p);
    if p < 0 || p > t.len() || e < p || e > t.len() {
        false
    } else {
        match line_step(t, p, e, st) {
            None => false,
            Some(st2) => if e == t.len() {
                st2.2 == 0
            } else {
                text_from(t, e + 1, st2)
            },
        }
    }
}

/// Whether `t` is a text of the subset.
pub open spec fn llhd_text_supported(t: Seq<char>) -> bool {
    t.len() + 16 <= usize::MAX && text_from(t, 0, (Seq::empty(), Seq::empty(), 0u8))
}

// ---------------------------------------------------------------------------
// The check.

/// The position `r` as a position of the specification: -1 for none.
pub open spec fn pos_of(r: Option<usize>) -> int {
    match r {
        Some(q) => q as int,
        None => -1,
    }
}

/// Whether every declared name lies within `t`.
pub open spec fn locals_in(t: Seq<char>, locals: Seq<LocalDecl>) -> bool {
    forall|k: int| 0 <= k < locals.len() ==> (#[trigger] locals[k]).0 <= locals[k].1 <= t.len()
}

/// Whether every declared unit name lies within `t`.
pub open spec fn units_in(t: Seq<char>, units: Seq<UnitDecl>) -> bool {
    forall|k: int| 0 <= k < units.len() ==> (#[trigger] units[k]).0 <= units[k].1 <= t.len()
}

/// The characters of `text`, in order.
pub fn chars_of(text: &str) -> (r: Vec<char>)
    ensures
        r@ == text@,
{
    let mut r: Vec<char> = Vec::new();
    for c in it: text.chars()
        invariant
            r@ == it.seq().take(it.index()),
    {
        r.push(c);
    }
    r
}

fn at_x(t: &Vec<char>, q: usize, c: char) -> (r: bool)
    ensures
        r == at(t@, q as int, c),
{
    q < t.len() && t[q] == c
}

fn stops_x(t: &Vec<char>, q: usize) -> (r: bool)
    requires
        t@.len() + 16 <= usize::MAX,
        q <= t@.len(),
    ensures
        r == stops(t@, q as int),
{
    if q == t.len() {
        true
    } else {
        let c = t[q];
        c == ' ' || c == '(' || c == ')' || c == ',' || c == '=' || c == ';' || c == '\n'
    }
}

fn spaces_end_x(t: &Vec<char>, p: usize) -> (r: usize)
    requires
        t@.len() + 16 <= usize::MAX,
        p <= t@.len(),
    ensures
        r == spaces_end(t@, p as int),
        p <= r <= t@.len(),
{
    let mut q = p;
    while q < t.len() && t[q] == ' '
        invariant
            p <= q <= t@.len(),
            spaces_end(t@, p as int) == spaces_end(t@, q as int),
        decreases t@.len() - q,
    {
        q = q + 1;
    }
    q
}

fn name_end_x(t: &Vec<char>, p: usize) -> (r: usize)
    requires
        t@.len() + 16 <= usize::MAX,
        p <= t@.len(),
    ensures
        r == name_end(t@, p as int),
        p <= r <= t@.len(),
{
    let mut q = p;
    while q < t.len() && ((t[q] >= 'a' && t[q] <= 'z') || (t[q] >= 'A' && t[q] <= 'Z') || (t[q]
        >= '0' && t[q] <= '9') || t[q] == '_')
        invariant
            p <= q <= t@.len(),
            name_end(t@, p as int) == name_end(t@, q as int),
        decreases t@.len() - q,
    {
        q = q + 1;
    }
    q
}

fn digits_end_x(t: &Vec<char>, p: usize) -> (r: usize)
    requires
        t@.len() + 16 <= usize::MAX,
        p <= t@.len(),
    ensures
        r == digits_end(t@, p as int),
        p <= r <= t@.len(),
{
    let mut q = p;
    while q < t.len() && t[q] >= '0' && t[q] <= '9'
        invariant
            p <= q <= t@.len(),
            digits_end(t@, p as int) == digits_end(t@, q as int),
        decreases t@.len() - q,
    {
        q = q + 1;
    }
    q
}

fn line_end_x(t: &Vec<char>, p: usize) -> (r: usize)
    requires
        t@.len() + 16 <= usize::MAX,
        p <= t@.len(),
    ensures
        r == line_end(t@, p as int),
        p <= r <= t@.len(),
{
    let mut q = p;
    while q < t.len() && t[q] != '\n'
        invariant
            p <= q <= t@.len(),
            line_end(t@, p as int) == line_end(t@, q as int),
        decreases t@.len() - q,
    {
        q = q + 1;
    }
    q
}

fn word_at_x(t: &Vec<char>, p: usize, w: &[char]) -> (r: bool)
    requires
        t@.len() + 16 <= usize::MAX,
        p <= t@.len(),
    ensures
        r == word_at(t@, p as int, w@),
{
    if w.len() > t.len() - p {
        return false;
    }
    let mut i: usize = 0;
    while i < w.len()
        invariant
            t@.len() + 16 <= usize::MAX,
            p + w@.len() <= t@.len(),
            i <= w@.len(),
            forall|k: int| 0 <= k < i ==> t@[p + k] == w@[k],
        decreases w@.len() - i,
    {
        if t[p + i] != w[i] {
            assert(t@.subrange(p as int, p + w@.len())[i as int] != w@[i as int]);
            return false;
        }
        i = i + 1;
    }
    assert(t@.subrange(p as int, p + w@.len()) =~= w@);
    true
}

fn keyword_at_x(t: &Vec<char>, p: usize, w: &[char]) -> (r: bool)
    requires
        t@.len() + 16 <= usize::MAX,
        p <= t@.len(),
    ensures
        r == keyword_at(t@, p as int, w@),
{
    word_at_x(t, p, w) && at_x(t, p + w.len(), ' ')
}

fn rest_ok_x(t: &Vec<char>, p: usize, e: usize) -> (r: bool)
    requires
        t@.len() + 16 <= usize::MAX,
        p <= t@.len(),
    ensures
        r == rest_ok(t@, p as int, e as int),
{
    let q = spaces_end_x(t, p);
    q == e || (q < e && at_x(t, q, ';'))
}

fn name_tok_x(t: &Vec<char>, p: usize, sigil: char) -> (r: Option<usize>)
    requires
        t@.len() + 16 <= usize::MAX,
        p <= t@.len(),
    ensures
        pos_of(r) == name_tok(t@, p as int, sigil),
        r matches Some(q) ==> p + 1 < q <= t@.len(),
{
    if !at_x(t, p, sigil) {
        return None;
    }
    let q = name_end_x(t, p + 1);
    if q > p + 1 && stops_x(t, q) {
        Some(q)
    } else {
        None
    }
}

fn ty_end_x(t: &Vec<char>, p: usize) -> (r: Option<usize>)
    requires
        t@.len() + 16 <= usize::MAX,
        p <= t@.len(),
    ensures
        pos_of(r) == ty_end(t@, p as int),
        r matches Some(q) ==> p < q <= t@.len(),
{
    let base = if word_at_x(t, p, &['v', 'o', 'i', 'd']) || word_at_x(t, p, &['t', 'i', 'm', 'e']) {
        p + 4
    } else if at_x(t, p, 'i') {
        let d = digits_end_x(t, p + 1);
        if p + 1 < d && d - p <= 10 {
            d
        } else {
            return None;
        }
    } else {
        return None;
    };
    if at_x(t, base, '$') && stops_x(t, base + 1) {
        Some(base + 1)
    } else if stops_x(t, base) {
        Some(base)
    } else {
        None
    }
}

fn same_text_x(t: &Vec<char>, s1: usize, e1: usize, s2: usize, e2: usize) -> (r: bool)
    requires
        t@.len() + 16 <= usize::MAX,
        s1 <= e1 <= t@.len(),
        s2 <= e2 <= t@.len(),
    ensures
        r == same_text(t@, s1 as int, e1 as int, s2 as int, e2 as int),
{
    if e1 - s1 != e2 - s2 {
        assert(t@.subrange(s1 as int, e1 as int).len() != t@.subrange(s2 as int, e2 as int).len());
        return false;
    }
    let n = e1 - s1;
    let mut i: usize = 0;
    while i < n
        invariant
            s1 <= e1 <= t@.len(),
            s2 <= e2 <= t@.len(),
            n == e1 - s1,
            n == e2 - s2,
            i <= n,
            forall|k: int| 0 <= k < i ==> #[trigger] t@.subrange(s1 as int, e1 as int)[k] == t@.subrange(s2 as int, e2 as int)[k],
        decreases n - i,
    {
        if t[s1 + i] != t[s2 + i] {
            assert(t@.subrange(s1 as int, e1 as int)[i as int] != t@.subrange(s2 as int, e2 as int)[i as int]);
            return false;
        }
        assert(t@.subrange(s1 as int, e1 as int)[i as int] == t@.subrange(s2 as int, e2 as int)[i as int]);
        i = i + 1;
    }
    assert(t@.subrange(s1 as int, e1 as int) =~= t@.subrange(s2 as int, e2 as int));
    true
}

fn local_declared_x(t: &Vec<char>, locals: &Vec<LocalDecl>, s: usize, e: usize, want_signal: bool) -> (r: bool)
    requires
        t@.len() + 16 <= usize::MAX,
        s <= e <= t@.len(),
        locals_in(t@, locals@),
    ensures
        !want_signal ==> r == local_declared(t@, locals@, s as int, e as int),
        want_signal ==> r == local_int_signal(t@, locals@, s as int, e as int),
{
    let mut k: usize = 0;
    while k < locals.len()
        invariant
            t@.len() + 16 <= usize::MAX,
            s <= e <= t@.len(),
            locals_in(t@, locals@),
            k <= locals@.len(),
            forall|j: int|
                0 <= j < k ==> !(same_text(t@, locals@[j].0 as int, locals@[j].1 as int, s as int, e as int)
                    && (want_signal ==> locals@[j].2)),
        decreases locals@.len() - k,
    {
        assert(locals@[k as int].0 <= locals@[k as int].1 <= t@.len());
        let (a, b, sig) = locals[k];
        if same_text_x(t, a, b, s, e) && (!want_signal || sig) {
            return true;
        }
        k = k + 1;
    }
    false
}

fn unit_found_x(
    t: &Vec<char>,
    units: &Vec<UnitDecl>,
    s: usize,
    e: usize,
    entity_only: bool,
    n_in: usize,
    n_out: usize,
) -> (r: bool)
    requires
        t@.len() + 16 <= usize::MAX,
        s <= e <= t@.len(),
        units_in(t@, units@),
    ensures
        !entity_only ==> r == unit_declared(t@, units@, s as int, e as int),
        entity_only ==> r == entity_fits_operands(t@, units@, s as int, e as int, n_in as int, n_out as int),
{
    let mut k: usize = 0;
    while k < units.len()
        invariant
            t@.len() + 16 <= usize::MAX,
            s <= e <= t@.len(),
            units_in(t@, units@),
            k <= units@.len(),
            forall|j: int|
                0 <= j < k ==> !(same_text(t@, units@[j].0 as int, units@[j].1 as int, s as int, e as int)
                    && (entity_only ==> (units@[j].4 && n_in <= units@[j].2 && n_out <= units@[j].3))),
        decreases units@.len() - k,
    {
        assert(units@[k as int].0 <= units@[k as int].1 <= t@.len());
        let (a, b, ni, no, ent) = units[k];
        if same_text_x(t, a, b, s, e) && (!entity_only || (ent && n_in <= ni && n_out <= no)) {
            return true;
        }
        k = k + 1;
    }
    false
}

fn args_from_x(t: &Vec<char>, p: usize, acc: Vec<LocalDecl>) -> (r: Option<(usize, Vec<LocalDecl>)>)
    requires
        t@.len() + 16 <= usize::MAX,
        p <= t@.len(),
        locals_in(t@, acc@),
    ensures
        match r {
            Some((q, v)) => args_from(t@, p as int, acc@) == Some((q as int, v@)) && locals_in(t@, v@) && q <= t@.len()
                && v@.len() >= acc@.len(),
            None => args_from(t@, p as int, acc@) is None,
        },
    decreases t@.len() - p,
{
    let te = match ty_end_x(t, p) {
        Some(te) => te,
        None => return None,
    };
    if !at_x(t, te, ' ') {
        return None;
    }
    let ns = spaces_end_x(t, te);
    let ne = match name_tok_x(t, ns, '%') {
        Some(ne) => ne,
        None => return None,
    };
    if local_declared_x(t, &acc, ns + 1, ne, false) {
        return None;
    }
    let sig = at_x(t, p, 'i') && at_x(t, te - 1, '$');
    let mut acc2 = acc;
    acc2.push((ns + 1, ne, sig));
    if at_x(t, ne, ')') {
        Some((ne + 1, acc2))
    } else if at_x(t, ne, ',') {
        let next = spaces_end_x(t, ne + 1);
        if next <= p {
            None
        } else {
            args_from_x(t, next, acc2)
        }
    } else {
        None
    }
}

fn arg_list_x(t: &Vec<char>, p: usize, acc: Vec<LocalDecl>) -> (r: Option<(usize, Vec<LocalDecl>)>)
    requires
        t@.len() + 16 <= usize::MAX,
        p <= t@.len(),
        locals_in(t@, acc@),
    ensures
        match r {
            Some((q, v)) => arg_list(t@, p as int, acc@) == Some((q as int, v@)) && locals_in(t@, v@) && q <= t@.len()
                && v@.len() >= acc@.len(),
            None => arg_list(t@, p as int, acc@) is None,
        },
{
    if !at_x(t, p, '(') {
        None
    } else if at_x(t, p + 1, ')') {
        Some((p + 2, acc))
    } else {
        args_from_x(t, p + 1, acc)
    }
}

fn value_end_x(t: &Vec<char>, p: usize, locals: &Vec<LocalDecl>) -> (r: Option<usize>)
    requires
        t@.len() + 16 <= usize::MAX,
        p <= t@.len(),
        locals_in(t@, locals@),
    ensures
        pos_of(r) == value_end(t@, p as int, locals@),
        r matches Some(q) ==> q <= t@.len(),
{
    match name_tok_x(t, p, '%') {
        Some(ne) => {
            if local_declared_x(t, locals, p + 1, ne, false) {
                Some(ne)
            } else {
                None
            }
        },
        None => {
            let ds = if at_x(t, p, '-') {
                p + 1
            } else {
                p
            };
            let de = digits_end_x(t, ds);
            if de > ds && stops_x(t, de) {
                Some(de)
            } else {
                None
            }
        },
    }
}

fn ops_from_x(t: &Vec<char>, p: usize, locals: &Vec<LocalDecl>, n: usize) -> (r: Option<(usize, usize)>)
    requires
        t@.len() + 16 <= usize::MAX,
        p <= t@.len(),
        n <= p,
        locals_in(t@, locals@),
    ensures
        match r {
            Some((q, m)) => ops_from(t@, p as int, locals@, n as int) == Some((q as int, m as int)) && q <= t@.len(),
            None => ops_from(t@, p as int, locals@, n as int) is None,
        },
    decreases t@.len() - p,
{
    let ne = match name_tok_x(t, p, '%') {
        Some(ne) => ne,
        None => return None,
    };
    if !local_declared_x(t, locals, p + 1, ne, false) {
        return None;
    }
    if at_x(t, ne, ')') {
        Some((ne + 1, n + 1))
    } else if at_x(t, ne, ',') {
        let next = spaces_end_x(t, ne + 1);
        if next <= p {
            None
        } else {
            ops_from_x(t, next, locals, n + 1)
        }
    } else {
        None
    }
}

fn ops_list_x(t: &Vec<char>, p: usize, locals: &Vec<LocalDecl>) -> (r: Option<(usize, usize)>)
    requires
        t@.len() + 16 <= usize::MAX,
        p <= t@.len(),
        locals_in(t@, locals@),
    ensures
        match r {
            Some((q, m)) => ops_list(t@, p as int, locals@) == Some((q as int, m as int)) && q <= t@.len(),
            None => ops_list(t@, p as int, locals@) is None,
        },
{
    if !at_x(t, p, '(') {
        None
    } else if at_x(t, p + 1, ')') {
        Some((p + 2, 0))
    } else {
        ops_from_x(t, p + 1, locals, 0)
    }
}

fn binary_op_at_x(t: &Vec<char>, p: usize) -> (r: bool)
    requires
        t@.len() + 16 <= usize::MAX,
        p <= t@.len(),
    ensures
        r == binary_op_at(t@, p as int),
{
    keyword_at_x(t, p, &['a', 'd', 'd']) || keyword_at_x(t, p, &['s', 'u', 'b']) || keyword_at_x(
        t,
        p,
        &['m', 'u', 'l'],
    ) || keyword_at_x(t, p, &['d', 'i', 'v']) || keyword_at_x(t, p, &['m', 'o', 'd'])
        || keyword_at_x(t, p, &['r', 'e', 'm']) || keyword_at_x(t, p, &['s', 'h', 'l'])
        || keyword_at_x(t, p, &['s', 'h', 'r']) || keyword_at_x(t, p, &['a', 'n', 'd'])
        || keyword_at_x(t, p, &['x', 'o', 'r']) || keyword_at_x(t, p, &['o', 'r'])
}

fn inst_at_x(t: &Vec<char>, k: usize, e: usize, units: &Vec<UnitDecl>, locals: &Vec<LocalDecl>) -> (r: Option<bool>)
    requires
        t@.len() + 16 <= usize::MAX,
        k <= t@.len(),
        units_in(t@, units@),
        locals_in(t@, locals@),
    ensures
        r == inst_at(t@, k as int, e as int, units@, locals@),
{
    if keyword_at_x(t, k, &['s', 'i', 'g']) {
        let ts = spaces_end_x(t, k + 3);
        match ty_end_x(t, ts) {
            Some(te) => {
                if rest_ok_x(t, te, e) {
                    Some(at_x(t, ts, 'i') && !at_x(t, te - 1, '$'))
                } else {
                    None
                }
            },
            None => None,
        }
    } else if keyword_at_x(t, k, &['d', 'r', 'v']) {
        let a = spaces_end_x(t, k + 3);
        let ae = match name_tok_x(t, a, '%') {
            Some(ae) => ae,
            None => return None,
        };
        if !local_declared_x(t, locals, a + 1, ae, true) || !at_x(t, ae, ' ') {
            return None;
        }
        let v = spaces_end_x(t, ae);
        match value_end_x(t, v, locals) {
            Some(ve) => {
                if rest_ok_x(t, ve, e) {
                    Some(false)
                } else {
                    None
                }
            },
            None => None,
        }
    } else if keyword_at_x(t, k, &['i', 'n', 's', 't']) {
        let g = spaces_end_x(t, k + 4);
        let ge = match name_tok_x(t, g, '@') {
            Some(ge) => ge,
            None => return None,
        };
        if !at_x(t, ge, ' ') {
            return None;
        }
        let o1 = spaces_end_x(t, ge);
        let (x1, n1) = match ops_list_x(t, o1, locals) {
            Some(r) => r,
            None => return None,
        };
        let o2 = spaces_end_x(t, x1);
        let (x2, n2) = match ops_list_x(t, o2, locals) {
            Some(r) => r,
            None => return None,
        };
        if rest_ok_x(t, x2, e) && unit_found_x(t, units, g + 1, ge, true, n1, n2) {
            Some(false)
        } else {
            None
        }
    } else if binary_op_at_x(t, k) {
        let ts = spaces_end_x(
            t,
            if at_x(t, k + 2, ' ') {
                k + 2
            } else {
                k + 3
            },
        );
        let te = match ty_end_x(t, ts) {
            Some(te) => te,
            None => return None,
        };
        if !(at_x(t, ts, 'i') && !at_x(t, te - 1, '$')) || !at_x(t, te, ' ') {
            return None;
        }
        let v1 = spaces_end_x(t, te);
        let v1e = match value_end_x(t, v1, locals) {
            Some(v) => v,
            None => return None,
        };
        if !at_x(t, v1e, ' ') {
            return None;
        }
        let v2 = spaces_end_x(t, v1e);
        match value_end_x(t, v2, locals) {
            Some(v2e) => {
                if rest_ok_x(t, v2e, e) {
                    Some(false)
                } else {
                    None
                }
            },
            None => None,
        }
    } else {
        None
    }
}

fn header_step_x(t: &Vec<char>, q: usize, e: usize, units: Vec<UnitDecl>) -> (r: Option<(Vec<UnitDecl>, Vec<LocalDecl>, u8)>)
    requires
        t@.len() + 16 <= usize::MAX,
        q <= t@.len(),
        units_in(t@, units@),
    ensures
        match r {
            Some((u, l, m)) => header_step(t@, q as int, e as int, units@) == Some((u@, l@, m))
                && units_in(t@, u@) && locals_in(t@, l@),
            None => header_step(t@, q as int, e as int, units@) is None,
        },
{
    let is_entity = keyword_at_x(t, q, &['e', 'n', 't', 'i', 't', 'y']);
    let is_proc = keyword_at_x(t, q, &['p', 'r', 'o', 'c']);
    let is_func = keyword_at_x(t, q, &['f', 'u', 'n', 'c']);
    if !(is_entity || is_proc || is_func) {
        return None;
    }
    let n0 = spaces_end_x(
        t,
        if is_entity {
            q + 6
        } else {
            q + 4
        },
    );
    let ne = match name_tok_x(t, n0, '@') {
        Some(ne) => ne,
        None => return None,
    };
    if unit_found_x(t, &units, n0 + 1, ne, false, 0, 0) {
        return None;
    }
    let (x1, ins) = match arg_list_x(t, spaces_end_x(t, ne), Vec::new()) {
        Some(r) => r,
        None => return None,
    };
    let n_in = ins.len();
    let (x2, args) = if is_func {
        match ty_end_x(t, spaces_end_x(t, x1)) {
            Some(te) => (te, ins),
            None => return None,
        }
    } else {
        match arg_list_x(t, spaces_end_x(t, x1), ins) {
            Some(r) => r,
            None => return None,
        }
    };
    let b = spaces_end_x(t, x2);
    if at_x(t, b, '{') && rest_ok_x(t, b + 1, e) {
        let mut units = units;
        proof {
            assert(args@.len() >= n_in);
        }
        units.push((n0 + 1, ne, n_in, args.len() - n_in, is_entity));
        Some(
            (
                units,
                args,
                if is_entity {
                    1u8
                } else {
                    2u8
                },
            ),
        )
    } else {
        None
    }
}

fn line_step_x(
    t: &Vec<char>,
    p: usize,
    e: usize,
    units: Vec<UnitDecl>,
    locals: Vec<LocalDecl>,
    mode: u8,
) -> (r: Option<(Vec<UnitDecl>, Vec<LocalDecl>, u8)>)
    requires
        t@.len() + 16 <= usize::MAX,
        p <= t@.len(),
        units_in(t@, units@),
        locals_in(t@, locals@),
    ensures
        match r {
            Some((u, l, m)) => line_step(t@, p as int, e as int, (units@, locals@, mode)) == Some(
                (u@, l@, m),
            ) && units_in(t@, u@) && locals_in(t@, l@),
            None => line_step(t@, p as int, e as int, (units@, locals@, mode)) is None,
        },
{
    let q = spaces_end_x(t, p);
    if q == e || at_x(t, q, ';') {
        Some((units, locals, mode))
    } else if mode == 0 {
        header_step_x(t, q, e, units)
    } else if at_x(t, q, '}') {
        if rest_ok_x(t, q + 1, e) {
            Some((units, Vec::new(), 0u8))
        } else {
            None
        }
    } else if mode == 2 {
        None
    } else if at_x(t, q, '%') {
        let rn = match name_tok_x(t, q, '%') {
            Some(rn) => rn,
            None => return None,
        };
        let r1 = spaces_end_x(t, rn);
        if !at_x(t, r1, '=') || local_declared_x(t, &locals, q + 1, rn, false) {
            return None;
        }
        let k = spaces_end_x(t, r1 + 1);
        match inst_at_x(t, k, e, &units, &locals) {
            None => None,
            Some(c) => {
                let mut locals = locals;
                locals.push((q + 1, rn, c));
                Some((units, locals, mode))
            },
        }
    } else {
        match inst_at_x(t, q, e, &units, &locals) {
            None => None,
            Some(_) => Some((units, locals, mode)),
        }
    }
}

/// Whether `text` is a text of the subset that the reader hands to the
/// `llhd` parser.
pub fn llhd_text_check(text: &str) -> (r: bool)
    ensures
        r == llhd_text_supported(text@),
{
    let t = chars_of(text);
    if t.len() > usize::MAX - 16 {
        return false;
    }
    let mut units: Vec<UnitDecl> = Vec::new();
    let mut locals: Vec<LocalDecl> = Vec::new();
    let mut mode: u8 = 0;
    let mut p: usize = 0;
    loop
        invariant
            t@ == text@,
            t@.len() + 16 <= usize::MAX,
            p <= t@.len(),
            units_in(t@, units@),
            locals_in(t@, locals@),
            llhd_text_supported(text@) == text_from(t@, p as int, (units@, locals@, mode)),
        decreases t@.len() - p,
    {
        let e = line_end_x(&t, p);
        match line_step_x(&t, p, e, units, locals, mode) {
            None => return false,
            Some((u, l, m)) => {
                if e == t.len() {
                    return m == 0;
                }
                units = u;
                locals = l;
                mode = m;
                p = e + 1;
            },
        }
    }
}


// ---------------------------------------------------------------------------
// Laws of the subset.

/// `k` spaces.
pub open spec fn spaces(k: nat) -> Seq<char> {
    Seq::new(k, |i: int| ' ')
}

/// Whether `d` holds only digits.
pub open spec fn all_digits(d: Seq<char>) -> bool {
    forall|i: int| 0 <= i < d.len() ==> digit_char(#[trigger] d[i])
}

/// Whether `n` holds only name characters.
pub open spec fn all_name_chars(n: Seq<char>) -> bool {
    forall|i: int| 0 <= i < n.len() ==> name_char(#[trigger] n[i])
}

/// The argument `i<d>$ %<n>`: a signal of integers of width `d`, named `n`.
pub open spec fn signal_arg(d: Seq<char>, n: Seq<char>) -> Seq<char> {
    seq!['i'] + d + seq!['$', ' ', '%'] + n
}

proof fn lemma_spaces_run(t: Seq<char>, p: int, q: int)
    requires
        0 <= p <= q <= t.len(),
        forall|i: int| p <= i < q ==> t[i] == ' ',
        q < t.len() ==> t[q] != ' ',
    ensures
        spaces_end(t, p) == q,
    decreases q - p,
{
    if p < q {
        lemma_spaces_run(t, p + 1, q);
    }
}

proof fn lemma_digits_run(t: Seq<char>, p: int, q: int)
    requires
        0 <= p <= q <= t.len(),
        forall|i: int| p <= i < q ==> digit_char(t[i]),
        q < t.len() ==> !digit_char(t[q]),
    ensures
        digits_end(t, p) == q,
    decreases q - p,
{
    if p < q {
        lemma_digits_run(t, p + 1, q);
    }
}

proof fn lemma_name_run(t: Seq<char>, p: int, q: int)
    requires
        0 <= p <= q <= t.len(),
        forall|i: int| p <= i < q ==> name_char(t[i]),
        q < t.len() ==> !name_char(t[q]),
    ensures
        name_end(t, p) == q,
    decreases q - p,
{
    if p < q {
        lemma_name_run(t, p + 1, q);
    }
}

/// Reading the argument `i<d>$ %<n>` that stands at `q`, followed by `c`.
proof fn lemma_signal_arg_reads(t: Seq<char>, q: int, d: Seq<char>, n: Seq<char>, c: char)
    requires
        0 <= q,
        q + signal_arg(d, n).len() < t.len(),
        t.subrange(q, q + signal_arg(d, n).len()) == signal_arg(d, n),
        t[q + signal_arg(d, n).len()] == c,
        c == ',' || c == ')',
        1 <= d.len() <= 9,
        all_digits(d),
        1 <= n.len(),
        all_name_chars(n),
    ensures
        ty_end(t, q) == q + 2 + d.len(),
        ty_int_signal(t, q, q + 2 + d.len()),
        at(t, q + 2 + d.len(), ' '),
        spaces_end(t, q + 2 + d.len()) == q + 3 + d.len(),
        name_tok(t, q + 3 + d.len(), '%') == q + signal_arg(d, n).len(),
        t.subrange(q + 4 + d.len(), q + signal_arg(d, n).len()) == n,
{
    let a = signal_arg(d, n);
    let l = a.len() as int;
    assert forall|i: int| 0 <= i < l implies t[q + i] == a[i] by {
        assert(t.subrange(q, q + l)[i] == t[q + i]);
    }
    assert(a[0] == 'i');
    assert forall|i: int| q + 1 <= i < q + 1 + d.len() implies digit_char(t[i]) by {
        assert(a[i - q] == d[i - q - 1]);
        assert(t[q + (i - q)] == a[i - q]);
    }
    let b = q + 1 + d.len();
    assert(a[1 + d.len() as int] == '$');
    assert(a[2 + d.len() as int] == ' ');
    assert(a[3 + d.len() as int] == '%');
    assert(t[b] == '$');
    assert(t[b + 1] == ' ');
    assert(t[b + 2] == '%');
    lemma_digits_run(t, q + 1, b);
    assert(!word_at(t, q, seq!['v', 'o', 'i', 'd'])) by {
        if word_at(t, q, seq!['v', 'o', 'i', 'd']) {
            assert(t.subrange(q, q + 4)[0] == t[q]);
        }
    }
    assert(!word_at(t, q, seq!['t', 'i', 'm', 'e'])) by {
        if word_at(t, q, seq!['t', 'i', 'm', 'e']) {
            assert(t.subrange(q, q + 4)[0] == t[q]);
        }
    }
    assert(stops(t, b + 1));
    lemma_spaces_run(t, b + 1, b + 2);
    assert forall|i: int| b + 3 <= i < q + l implies name_char(t[i]) by {
        assert(a[i - q] == n[i - q - (4 + d.len())]);
        assert(t[q + (i - q)] == a[i - q]);
    }
    lemma_name_run(t, b + 3, q + l);
    assert(t.subrange(q + 4 + d.len(), q + l) =~= n) by {
        assert forall|i: int| 0 <= i < n.len() implies t.subrange(q + 4 + d.len(), q + l)[i] == n[i] by {
            assert(a[4 + d.len() + i] == n[i]);
            assert(t[q + (4 + d.len() + i)] == a[4 + d.len() + i]);
        }
    }
}

/// Spaces after the comma that separates two arguments do not change the
/// reading of an argument list: wherever the text holds
/// `(i<d1>$ %<n1>,` and any number of spaces, then `i<d2>$ %<n2>)`, with
/// widths of one to nine digits and two different names, the list is read
/// as exactly these two arguments, in order, each a signal of integers
/// under its own name.
pub proof fn law_arg_list_spaces_after_comma(
    t: Seq<char>,
    p: int,
    d1: Seq<char>,
    n1: Seq<char>,
    k: nat,
    d2: Seq<char>,
    n2: Seq<char>,
)
    requires
        0 <= p,
        t.len() <= usize::MAX,
        1 <= d1.len() <= 9,
        all_digits(d1),
        1 <= n1.len(),
        all_name_chars(n1),
        1 <= d2.len() <= 9,
        all_digits(d2),
        1 <= n2.len(),
        all_name_chars(n2),
        n1 != n2,
        p + (seq!['('] + signal_arg(d1, n1) + seq![','] + spaces(k) + signal_arg(d2, n2) + seq![')']).len()
            <= t.len(),
        t.subrange(
            p,
            p + (seq!['('] + signal_arg(d1, n1) + seq![','] + spaces(k) + signal_arg(d2, n2) + seq![
                ')',
            ]).len(),
        ) == seq!['('] + signal_arg(d1, n1) + seq![','] + spaces(k) + signal_arg(d2, n2) + seq![')'],
    ensures
        ({
            let s1 = p + 5 + d1.len();
            let e1 = s1 + n1.len();
            let s2 = e1 + 5 + k + d2.len();
            let e2 = s2 + n2.len();
            arg_list(t, p, Seq::empty()) == Some(
                (e2 + 1, seq![(s1 as usize, e1 as usize, true), (s2 as usize, e2 as usize, true)]),
            )
        }),
{
    let a1 = signal_arg(d1, n1);
    let a2 = signal_arg(d2, n2);
    let pat = seq!['('] + a1 + seq![','] + spaces(k) + a2 + seq![')'];
    let l = pat.len() as int;
    let e1 = p + 1 + a1.len();
    let c2 = e1 + 1 + k;
    let e2 = c2 + a2.len();
    assert forall|i: int| 0 <= i < l implies t[p + i] == pat[i] by {
        assert(t.subrange(p, p + l)[i] == t[p + i]);
    }
    assert(pat[0] == '(');
    assert(t[p] == '(');
    assert(t.subrange(p + 1, e1) =~= a1) by {
        assert forall|i: int| 0 <= i < a1.len() implies t.subrange(p + 1, e1)[i] == a1[i] by {
            assert(pat[1 + i] == a1[i]);
            assert(t[p + (1 + i)] == pat[1 + i]);
        }
    }
    assert(pat[1 + a1.len() as int] == ',');
    assert(t[e1] == ',');
    assert forall|i: int| e1 + 1 <= i < c2 implies t[i] == ' ' by {
        assert(pat[i - p] == spaces(k)[i - p - (2 + a1.len())]);
        assert(t[p + (i - p)] == pat[i - p]);
    }
    assert(t.subrange(c2, e2) =~= a2) by {
        assert forall|i: int| 0 <= i < a2.len() implies t.subrange(c2, e2)[i] == a2[i] by {
            assert(pat[c2 - p + i] == a2[i]);
            assert(t[p + (c2 - p + i)] == pat[c2 - p + i]);
        }
    }
    assert(pat[l - 1] == ')');
    assert(t[e2] == ')');
    assert(a2[0] == 'i');
    assert(t[c2] == 'i') by {
        assert(t.subrange(c2, e2)[0] == t[c2]);
    }
    lemma_spaces_run(t, e1 + 1, c2);
    lemma_signal_arg_reads(t, p + 1, d1, n1, ',');
    lemma_signal_arg_reads(t, c2, d2, n2, ')');
    assert(!at(t, p + 1, ')')) by {
        assert(a1[0] == 'i');
        assert(t.subrange(p + 1, e1)[0] == t[p + 1]);
    }
    let s1 = p + 5 + d1.len();
    let s2 = c2 + 4 + d2.len();
    let acc1 = Seq::<LocalDecl>::empty().push((s1 as usize, e1 as usize, true));
    assert(!local_declared(t, Seq::<LocalDecl>::empty(), s1, e1));
    assert(!local_declared(t, acc1, s2, e2)) by {
        if local_declared(t, acc1, s2, e2) {
            assert(acc1[0].0 as int == s1 && acc1[0].1 as int == e1);
            assert(same_text(t, s1, e1, s2, e2));
            assert(t.subrange(s1, e1) == n1);
            assert(t.subrange(s2, e2) == n2);
        }
    }
    assert(args_from(t, c2, acc1) == Some((e2 + 1, acc1.push((s2 as usize, e2 as usize, true)))));
    assert(args_from(t, p + 1, Seq::empty()) == args_from(t, c2, acc1));
    assert(acc1.push((s2 as usize, e2 as usize, true)) =~= seq![(s1 as usize, e1 as usize, true), (s2 as usize, e2 as usize, true)]);
}

/// Spaces after the comma that separates two operands of an instance do
/// not change the reading of its operand list: wherever the text holds
/// `(%<n1>,` and any number of spaces, then `%<n2>)`, naming two declared
/// locals, the list is read as two operands.
pub proof fn law_ops_list_spaces_after_comma(
    t: Seq<char>,
    p: int,
    n1: Seq<char>,
    k: nat,
    n2: Seq<char>,
    locals: Seq<LocalDecl>,
)
    requires
        0 <= p,
        1 <= n1.len(),
        all_name_chars(n1),
        1 <= n2.len(),
        all_name_chars(n2),
        p + (seq!['(', '%'] + n1 + seq![','] + spaces(k) + seq!['%'] + n2 + seq![')']).len() <= t.len(),
        t.subrange(p, p + (seq!['(', '%'] + n1 + seq![','] + spaces(k) + seq!['%'] + n2 + seq![')']).len())
            == seq!['(', '%'] + n1 + seq![','] + spaces(k) + seq!['%'] + n2 + seq![')'],
        local_declared(t, locals, p + 2, p + 2 + n1.len()),
        local_declared(t, locals, p + 4 + n1.len() + k, p + 4 + n1.len() + k + n2.len()),
    ensures
        ops_list(t, p, locals) == Some((p + 5 + n1.len() + k + n2.len(), 2int)),
{
    let pat = seq!['(', '%'] + n1 + seq![','] + spaces(k) + seq!['%'] + n2 + seq![')'];
    let l = pat.len() as int;
    let e1 = p + 2 + n1.len();
    let c2 = e1 + 1 + k;
    let e2 = c2 + 1 + n2.len();
    assert forall|i: int| 0 <= i < l implies t[p + i] == pat[i] by {
        assert(t.subrange(p, p + l)[i] == t[p + i]);
    }
    assert(pat[0] == '(');
    assert(pat[1] == '%');
    assert(t[p] == '(');
    assert(t[p + 1] == '%');
    assert forall|i: int| p + 2 <= i < e1 implies name_char(t[i]) by {
        assert(pat[i - p] == n1[i - p - 2]);
        assert(t[p + (i - p)] == pat[i - p]);
    }
    assert(pat[e1 - p] == ',');
    assert(t[e1] == ',');
    assert forall|i: int| e1 + 1 <= i < c2 implies t[i] == ' ' by {
        assert(pat[i - p] == spaces(k)[i - p - (e1 - p + 1)]);
        assert(t[p + (i - p)] == pat[i - p]);
    }
    assert(pat[c2 - p] == '%');
    assert(t[c2] == '%');
    assert forall|i: int| c2 + 1 <= i < e2 implies name_char(t[i]) by {
        assert(pat[i - p] == n2[i - c2 - 1]);
        assert(t[p + (i - p)] == pat[i - p]);
    }
    assert(pat[l - 1] == ')');
    assert(t[e2] == ')');
    lemma_name_run(t, p + 2, e1);
    lemma_spaces_run(t, e1 + 1, c2);
    lemma_name_run(t, c2 + 1, e2);
    assert(!at(t, p + 1, ')'));
    assert(ops_from(t, c2, locals, 1) == Some((e2 + 1, 2int)));
    assert(ops_from(t, p + 1, locals, 0) == ops_from(t, c2, locals, 1));
}

} // verus!
