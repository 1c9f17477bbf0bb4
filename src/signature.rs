//! Reduction of a free-form function declaration to its canonical
//! `name(type,type,...)` form.

use vstd::prelude::*;

use crate::text::{
    chars_of, first_token, free_of, in_class, is_space, is_word, last_token, lemma_first_token_facts,
    lemma_first_token_of_word, lemma_last_token_facts, lemma_last_token_of_word, lemma_prefix_len,
    lemma_prefix_len_facts, lemma_suffix_len, prefix_len, scan_backward, scan_forward, suffix_len,
    trim, CharClass,
};

verus! {

/// What normalization gives for input without a `(`.
pub open spec fn invalid_signature_text() -> Seq<char> {
    "Error: Invalid function signature."@
}

/// What stands for the parameter list when no `)` follows the `(`.
pub open spec fn missing_paren_text() -> Seq<char> {
    "Error: Missing closing parenthesis."@
}

/// What stands for a parameter with no token.
pub open spec fn unknown_type_text() -> Seq<char> {
    "unknown"@
}

/// The type of one comma-separated parameter: its first token, or
/// `unknown` where it has none.
pub open spec fn param_type(piece: Seq<char>) -> Seq<char> {
    let t = first_token(piece);
    if t.len() == 0 {
        unknown_type_text()
    } else {
        t
    }
}

/// The types of a comma-separated parameter list, joined by `,`.
pub open spec fn param_types(params: Seq<char>) -> Seq<char>
    decreases params.len(),
{
    let k = prefix_len(params, CharClass::Except(',')) as int;
    if k >= params.len() {
        param_type(params)
    } else {
        param_type(params.subrange(0, k)) + seq![','] + param_types(
            params.subrange(k + 1, params.len() as int),
        )
    }
}

/// The canonical form of a function declaration.
pub open spec fn normalize(raw: Seq<char>) -> Seq<char> {
    let s = trim(raw);
    let p = prefix_len(s, CharClass::Except('(')) as int;
    if p >= s.len() {
        invalid_signature_text()
    } else {
        let after = s.subrange(p + 1, s.len() as int);
        let q = prefix_len(after, CharClass::Except(')'));
        let params = if q >= after.len() {
            missing_paren_text()
        } else {
            after.subrange(0, q as int)
        };
        last_token(s.subrange(0, p as int)) + seq!['('] + param_types(params) + seq![')']
    }
}

/// A parameter's type is a non-empty word, and holds no `,` or `)` that
/// the parameter does not hold.
pub proof fn lemma_param_type_facts(piece: Seq<char>)
    ensures
        param_type(piece).len() > 0,
        is_word(param_type(piece)),
        free_of(piece, ',') ==> free_of(param_type(piece), ','),
        free_of(piece, ')') ==> free_of(param_type(piece), ')'),
{
    lemma_first_token_facts(piece);
    if first_token(piece).len() == 0 {
        reveal_strlit("unknown");
        assert(is_word(unknown_type_text()));
    }
}

/// A list of types is its own list of types, and a list without `)` gives
/// types without `)`.
pub proof fn lemma_param_types_fixed(params: Seq<char>)
    requires
        free_of(params, ')'),
    ensures
        param_types(param_types(params)) == param_types(params),
        free_of(param_types(params), ')'),
        param_types(params).len() > 0,
    decreases params.len(),
{
    let k = prefix_len(params, CharClass::Except(',')) as int;
    lemma_prefix_len_facts(params, CharClass::Except(','));
    let y = param_types(params);
    if k >= params.len() {
        assert forall|i: int| 0 <= i < params.len() implies params[i] != ',' by {
            assert(in_class(params[i], CharClass::Except(',')));
        }
        lemma_param_type_facts(params);
        assert forall|j: int| 0 <= j < y.len() implies in_class(
            #[trigger] y[j],
            CharClass::Except(','),
        ) by {}
        lemma_prefix_len(y, CharClass::Except(','), y.len() as int);
        lemma_first_token_of_word(y);
    } else {
        let piece = params.subrange(0, k);
        let rest = params.subrange(k + 1, params.len() as int);
        assert forall|i: int| 0 <= i < piece.len() implies piece[i] != ',' by {
            assert(in_class(params[i], CharClass::Except(',')));
        }
        assert forall|i: int| 0 <= i < piece.len() implies piece[i] != ')' by {
            assert(piece[i] == params[i]);
        }
        assert forall|i: int| 0 <= i < rest.len() implies rest[i] != ')' by {
            assert(rest[i] == params[k + 1 + i]);
        }
        lemma_param_type_facts(piece);
        lemma_param_types_fixed(rest);
        let t = param_type(piece);
        let ys = param_types(rest);
        assert(y == t + seq![','] + ys);
        assert forall|j: int| 0 <= j < t.len() implies in_class(
            #[trigger] y[j],
            CharClass::Except(','),
        ) by {
            assert(y[j] == t[j]);
        }
        assert(y[t.len() as int] == ',');
        lemma_prefix_len(y, CharClass::Except(','), t.len() as int);
        assert(y.subrange(0, t.len() as int) =~= t);
        assert(y.subrange(t.len() as int + 1, y.len() as int) =~= ys);
        lemma_first_token_of_word(t);
        assert forall|i: int| 0 <= i < y.len() implies y[i] != ')' by {
            if i < t.len() {
                assert(y[i] == t[i]);
            } else if i > t.len() {
                assert(y[i] == ys[i - t.len() - 1]);
            }
        }
    }
}

/// Whether a `)` follows the first `(` of `s`, where `s` has a `(`.
pub open spec fn parens_closed(s: Seq<char>) -> bool {
    let p = prefix_len(s, CharClass::Except('(')) as int;
    p < s.len() ==> exists|j: int| p < j < s.len() && s[j] == ')'
}

/// Normalization is idempotent on every declaration whose first `(`, if
/// any, is followed by a `)`; in particular on every signature that is
/// already in canonical form `name(type,type,...)`.
pub proof fn lemma_normalize_idempotent(raw: Seq<char>)
    requires
        parens_closed(trim(raw)),
    ensures
        normalize(normalize(raw)) == normalize(raw),
{
    let s = trim(raw);
    let p = prefix_len(s, CharClass::Except('(')) as int;
    let out = normalize(raw);
    if p >= s.len() {
        reveal_strlit("Error: Invalid function signature.");
        lemma_word_trimmed(out);
        assert forall|j: int| 0 <= j < out.len() implies in_class(
            #[trigger] out[j],
            CharClass::Except('('),
        ) by {}
        lemma_prefix_len(out, CharClass::Except('('), out.len() as int);
    } else {
        lemma_prefix_len_facts(s, CharClass::Except('('));
        let before = s.subrange(0, p);
        let after = s.subrange(p + 1, s.len() as int);
        let q = prefix_len(after, CharClass::Except(')')) as int;
        lemma_prefix_len_facts(after, CharClass::Except(')'));
        let j = choose|j: int| p < j < s.len() && s[j] == ')';
        assert(after[j - p - 1] == ')');
        assert(q < after.len());
        let params = after.subrange(0, q);
        assert forall|i: int| 0 <= i < params.len() implies params[i] != ')' by {
            assert(in_class(after[i], CharClass::Except(')')));
        }
        assert forall|i: int| 0 <= i < before.len() implies before[i] != '(' by {
            assert(in_class(s[i], CharClass::Except('(')));
        }
        let n = last_token(before);
        lemma_last_token_facts(before);
        assert(free_of(before, '('));
        assert(free_of(n, '('));
        let t = param_types(params);
        lemma_param_types_fixed(params);
        assert(out == n + seq!['('] + t + seq![')']);
        // `out` is already trimmed.
        lemma_prefix_len(out, CharClass::Space, 0);
        assert(out.subrange(0, out.len() as int) =~= out);
        lemma_suffix_len(out, CharClass::Space, 0);
        assert(trim(out) =~= out);
        // Its first `(` ends the name.
        assert forall|i: int| 0 <= i < n.len() implies in_class(
            #[trigger] out[i],
            CharClass::Except('('),
        ) by {
            assert(out[i] == n[i]);
        }
        lemma_prefix_len(out, CharClass::Except('('), n.len() as int);
        assert(out.subrange(0, n.len() as int) =~= n);
        lemma_last_token_of_word(n);
        // Its first `)` after that ends the types.
        let after2 = out.subrange(n.len() as int + 1, out.len() as int);
        assert(after2 =~= t + seq![')']);
        assert forall|i: int| 0 <= i < t.len() implies in_class(
            #[trigger] after2[i],
            CharClass::Except(')'),
        ) by {
            assert(after2[i] == t[i]);
        }
        lemma_prefix_len(after2, CharClass::Except(')'), t.len() as int);
        assert(after2.subrange(0, t.len() as int) =~= t);
    }
}

/// A text that neither starts nor ends with white space is its own trim.
proof fn lemma_word_trimmed(w: Seq<char>)
    requires
        w.len() > 0,
        !is_space(w[0]),
        !is_space(w.last()),
    ensures
        trim(w) == w,
{
    lemma_prefix_len(w, CharClass::Space, 0);
    assert(w.subrange(0, w.len() as int) =~= w);
    lemma_suffix_len(w, CharClass::Space, 0);
    assert(trim(w) =~= w);
}

/// Appends the type of the parameter `v[lo..hi]`, a piece of `text`.
fn push_param_type(out: &mut String, text: &str, v: &Vec<char>, lo: usize, hi: usize)
    requires
        v@ == text@,
        lo <= hi <= v@.len(),
    ensures
        final(out)@ == old(out)@ + param_type(v@.subrange(lo as int, hi as int)),
{
    let ghost piece = v@.subrange(lo as int, hi as int);
    let a = scan_forward(v, lo, hi, CharClass::Space);
    let b = scan_forward(v, a, hi, CharClass::NonSpace);
    proof {
        assert(piece.subrange(prefix_len(piece, CharClass::Space) as int, piece.len() as int)
            =~= v@.subrange(a as int, hi as int));
        assert(first_token(piece) =~= v@.subrange(a as int, b as int));
    }
    if a == b {
        out.append("unknown");
    } else {
        out.append(text.substring_char(a, b));
    }
}

/// Appends the types of the parameter list `v[lo..hi]`, a piece of `text`.
fn push_param_types(out: &mut String, text: &str, v: &Vec<char>, lo: usize, hi: usize)
    requires
        v@ == text@,
        lo <= hi <= v@.len(),
    ensures
        final(out)@ == old(out)@ + param_types(v@.subrange(lo as int, hi as int)),
{
    let mut i: usize = lo;
    loop
        invariant
            v@ == text@,
            lo <= i <= hi <= v@.len(),
            old(out)@ + param_types(v@.subrange(lo as int, hi as int)) == out@ + param_types(
                v@.subrange(i as int, hi as int),
            ),
        ensures
            out@ == old(out)@ + param_types(v@.subrange(lo as int, hi as int)),
        decreases hi - i,
    {
        let ghost rest = v@.subrange(i as int, hi as int);
        let k = scan_forward(v, i, hi, CharClass::Except(','));
        if k == hi {
            push_param_type(out, text, v, i, hi);
            return;
        }
        proof {
            assert(rest.subrange(0, k - i) =~= v@.subrange(i as int, k as int));
            assert(rest.subrange(k - i + 1, rest.len() as int) =~= v@.subrange(
                k + 1,
                hi as int,
            ));
        }
        push_param_type(out, text, v, i, k);
        out.append(",");
        proof {
            reveal_strlit(",");
            assert(","@ =~= seq![',']);
        }
        i = k + 1;
        assert(out@ + param_types(v@.subrange(i as int, hi as int)) =~= old(out)@
            + param_types(v@.subrange(lo as int, hi as int)));
    }
}

/// Where the scans of `parse_the_function` stop, `raw[a..b]` is `trim(raw)`.
proof fn lemma_trim_at(raw: Seq<char>, a: int, b: int)
    requires
        a == prefix_len(raw.subrange(0, raw.len() as int), CharClass::Space),
        raw.len() - b == suffix_len(raw.subrange(a, raw.len() as int), CharClass::Space),
        0 <= a <= b <= raw.len(),
    ensures
        trim(raw) == raw.subrange(a, b),
{
    assert(raw.subrange(0, raw.len() as int) =~= raw);
    assert(trim(raw) =~= raw.subrange(a, b));
}

/// Where the scans of `parse_the_function` stop, the canonical form is the
/// token `raw[st..e]` followed by the types of the parameters in parentheses.
proof fn lemma_normalize_at(raw: Seq<char>, a: int, b: int, p: int, e: int, st: int, q: int)
    requires
        trim(raw) == raw.subrange(a, b),
        0 <= a <= st <= e <= p < q + 1 <= b + 1 <= raw.len() + 1,
        p - a == prefix_len(raw.subrange(a, b), CharClass::Except('(')),
        p - e == suffix_len(raw.subrange(a, p), CharClass::Space),
        e - st == suffix_len(raw.subrange(a, e), CharClass::NonSpace),
        q - (p + 1) == prefix_len(raw.subrange(p + 1, b), CharClass::Except(')')),
    ensures
        normalize(raw) == raw.subrange(st, e) + seq!['('] + param_types(
            if q == b {
                missing_paren_text()
            } else {
                raw.subrange(p + 1, q)
            },
        ) + seq![')'],
{
    let s = raw.subrange(a, b);
    let before = raw.subrange(a, p);
    assert(s.subrange(0, p - a) =~= before);
    assert(before.subrange(0, before.len() - suffix_len(before, CharClass::Space))
        =~= raw.subrange(a, e));
    assert(last_token(before) =~= raw.subrange(st, e));
    let after = raw.subrange(p + 1, b);
    assert(s.subrange(p - a + 1, s.len() as int) =~= after);
    assert(after.subrange(0, q - (p + 1)) =~= raw.subrange(p + 1, q));
}

/// The canonical `name(type,type,...)` form of a function declaration.
///
/// The name is the last token before the first `(`, and each parameter
/// contributes the first token of its comma-separated piece, or `unknown`
/// where the piece is blank. Input without a `(` gives a fixed error text in
/// place of a signature; input without a `)` after it has a fixed error text
/// parsed as its parameter list.
pub fn parse_the_function(function_signature: &str) -> (r: String)
    ensures
        r@ == normalize(function_signature@),
{
    let v = chars_of(function_signature);
    let n = v.len();
    let a = scan_forward(&v, 0, n, CharClass::Space);
    let b = scan_backward(&v, a, n, CharClass::Space);
    proof {
        lemma_trim_at(v@, a as int, b as int);
    }
    let p = scan_forward(&v, a, b, CharClass::Except('('));
    if p == b {
        return String::from_str("Error: Invalid function signature.");
    }
    let e = scan_backward(&v, a, p, CharClass::Space);
    let st = scan_backward(&v, a, e, CharClass::NonSpace);
    let q = scan_forward(&v, p + 1, b, CharClass::Except(')'));
    proof {
        lemma_normalize_at(v@, a as int, b as int, p as int, e as int, st as int, q as int);
    }
    let mut out = String::from_str(function_signature.substring_char(st, e));
    out.append("(");
    let ghost params;
    if q == b {
        let missing = "Error: Missing closing parenthesis.";
        let w = chars_of(missing);
        assert(w@.subrange(0, w@.len() as int) =~= w@);
        push_param_types(&mut out, missing, &w, 0, w.len());
        proof {
            params = missing_paren_text();
        }
    } else {
        push_param_types(&mut out, function_signature, &v, p + 1, q);
        proof {
            params = v@.subrange(p + 1, q as int);
        }
    }
    out.append(")");
    assert(out@ =~= v@.subrange(st as int, e as int) + seq!['('] + param_types(params) + seq![
        ')',
    ]) by {
        reveal_strlit("(");
        reveal_strlit(")");
    }
    out
}

} // verus!
