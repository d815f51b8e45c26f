//! What a formula looks like in plain text.

#[allow(unused_imports)]
use vstd::prelude::*;

#[allow(unused_imports)]
use crate::latex::{is_tex_syntax, symbols, unicode_approx, with_symbols};
#[allow(unused_imports)]
use crate::strings::law_replacing_changes_occurrences_only;
#[allow(unused_imports)]
use crate::text::{has_prefix, matches_at, replaced};

verus! {

/// Whether a character starts the name of a symbol.
pub open spec fn starts_symbol(c: char) -> bool {
    c == '\\' || c == '^'
}

/// Text in which no symbol is named.
pub open spec fn nameless(s: Seq<char>) -> bool {
    forall|i: int| 0 <= i < s.len() ==> !starts_symbol(#[trigger] s[i])
}

proof fn lemma_count()
    ensures
        symbols().len() == 47,
{
}

proof fn lemma_names(k: int)
    requires
        0 <= k < symbols().len(),
    ensures
        symbols()[k].0.len() > 0,
        starts_symbol(symbols()[k].0[0]),
{
    lemma_count();
    reveal_strlit("\\rightarrow");
    reveal_strlit("\\approx");
    reveal_strlit("\\partial");
    reveal_strlit("\\nabla");
    reveal_strlit("\\infty");
    reveal_strlit("\\alpha");
    reveal_strlit("\\gamma");
    reveal_strlit("\\delta");
    reveal_strlit("\\theta");
    reveal_strlit("\\lambda");
    reveal_strlit("\\sigma");
    reveal_strlit("\\omega");
    reveal_strlit("\\times");
    reveal_strlit("\\cdot");
    reveal_strlit("\\sqrt");
    reveal_strlit("\\hbar");
    reveal_strlit("\\beta");
    reveal_strlit("\\leq");
    reveal_strlit("\\geq");
    reveal_strlit("\\neq");
    reveal_strlit("\\sum");
    reveal_strlit("\\int");
    reveal_strlit("\\pm");
    reveal_strlit("\\mu");
    reveal_strlit("\\pi");
    reveal_strlit("\\tau");
    reveal_strlit("\\varepsilon");
    reveal_strlit("\\epsilon");
    reveal_strlit("\\phi");
    reveal_strlit("\\psi");
    reveal_strlit("\\Sigma");
    reveal_strlit("\\Delta");
    reveal_strlit("\\Omega");
    reveal_strlit("\\Gamma");
    reveal_strlit("\\langle");
    reveal_strlit("\\rangle");
    reveal_strlit("^0");
    reveal_strlit("^1");
    reveal_strlit("^2");
    reveal_strlit("^3");
    reveal_strlit("^4");
    reveal_strlit("^5");
    reveal_strlit("^6");
    reveal_strlit("^7");
    reveal_strlit("^8");
    reveal_strlit("^9");
    reveal_strlit("^n");
    assert("\\rightarrow"@[0] == '\\' && "\\rightarrow"@.len() > 0);
    assert("\\approx"@[0] == '\\' && "\\approx"@.len() > 0);
    assert("\\partial"@[0] == '\\' && "\\partial"@.len() > 0);
    assert("\\nabla"@[0] == '\\' && "\\nabla"@.len() > 0);
    assert("\\infty"@[0] == '\\' && "\\infty"@.len() > 0);
    assert("\\alpha"@[0] == '\\' && "\\alpha"@.len() > 0);
    assert("\\gamma"@[0] == '\\' && "\\gamma"@.len() > 0);
    assert("\\delta"@[0] == '\\' && "\\delta"@.len() > 0);
    assert("\\theta"@[0] == '\\' && "\\theta"@.len() > 0);
    assert("\\lambda"@[0] == '\\' && "\\lambda"@.len() > 0);
    assert("\\sigma"@[0] == '\\' && "\\sigma"@.len() > 0);
    assert("\\omega"@[0] == '\\' && "\\omega"@.len() > 0);
    assert("\\times"@[0] == '\\' && "\\times"@.len() > 0);
    assert("\\cdot"@[0] == '\\' && "\\cdot"@.len() > 0);
    assert("\\sqrt"@[0] == '\\' && "\\sqrt"@.len() > 0);
    assert("\\hbar"@[0] == '\\' && "\\hbar"@.len() > 0);
    assert("\\beta"@[0] == '\\' && "\\beta"@.len() > 0);
    assert("\\leq"@[0] == '\\' && "\\leq"@.len() > 0);
    assert("\\geq"@[0] == '\\' && "\\geq"@.len() > 0);
    assert("\\neq"@[0] == '\\' && "\\neq"@.len() > 0);
    assert("\\sum"@[0] == '\\' && "\\sum"@.len() > 0);
    assert("\\int"@[0] == '\\' && "\\int"@.len() > 0);
    assert("\\pm"@[0] == '\\' && "\\pm"@.len() > 0);
    assert("\\mu"@[0] == '\\' && "\\mu"@.len() > 0);
    assert("\\pi"@[0] == '\\' && "\\pi"@.len() > 0);
    assert("\\tau"@[0] == '\\' && "\\tau"@.len() > 0);
    assert("\\varepsilon"@[0] == '\\' && "\\varepsilon"@.len() > 0);
    assert("\\epsilon"@[0] == '\\' && "\\epsilon"@.len() > 0);
    assert("\\phi"@[0] == '\\' && "\\phi"@.len() > 0);
    assert("\\psi"@[0] == '\\' && "\\psi"@.len() > 0);
    assert("\\Sigma"@[0] == '\\' && "\\Sigma"@.len() > 0);
    assert("\\Delta"@[0] == '\\' && "\\Delta"@.len() > 0);
    assert("\\Omega"@[0] == '\\' && "\\Omega"@.len() > 0);
    assert("\\Gamma"@[0] == '\\' && "\\Gamma"@.len() > 0);
    assert("\\langle"@[0] == '\\' && "\\langle"@.len() > 0);
    assert("\\rangle"@[0] == '\\' && "\\rangle"@.len() > 0);
    assert("^0"@[0] == '^' && "^0"@.len() > 0);
    assert("^1"@[0] == '^' && "^1"@.len() > 0);
    assert("^2"@[0] == '^' && "^2"@.len() > 0);
    assert("^3"@[0] == '^' && "^3"@.len() > 0);
    assert("^4"@[0] == '^' && "^4"@.len() > 0);
    assert("^5"@[0] == '^' && "^5"@.len() > 0);
    assert("^6"@[0] == '^' && "^6"@.len() > 0);
    assert("^7"@[0] == '^' && "^7"@.len() > 0);
    assert("^8"@[0] == '^' && "^8"@.len() > 0);
    assert("^9"@[0] == '^' && "^9"@.len() > 0);
    assert("^n"@[0] == '^' && "^n"@.len() > 0);
    assert(symbols()[0].0 == "\\rightarrow"@);
    assert(symbols()[1].0 == "\\approx"@);
    assert(symbols()[2].0 == "\\partial"@);
    assert(symbols()[3].0 == "\\nabla"@);
    assert(symbols()[4].0 == "\\infty"@);
    assert(symbols()[5].0 == "\\alpha"@);
    assert(symbols()[6].0 == "\\gamma"@);
    assert(symbols()[7].0 == "\\delta"@);
    assert(symbols()[8].0 == "\\theta"@);
    assert(symbols()[9].0 == "\\lambda"@);
    assert(symbols()[10].0 == "\\sigma"@);
    assert(symbols()[11].0 == "\\omega"@);
    assert(symbols()[12].0 == "\\times"@);
    assert(symbols()[13].0 == "\\cdot"@);
    assert(symbols()[14].0 == "\\sqrt"@);
    assert(symbols()[15].0 == "\\hbar"@);
    assert(symbols()[16].0 == "\\beta"@);
    assert(symbols()[17].0 == "\\leq"@);
    assert(symbols()[18].0 == "\\geq"@);
    assert(symbols()[19].0 == "\\neq"@);
    assert(symbols()[20].0 == "\\sum"@);
    assert(symbols()[21].0 == "\\int"@);
    assert(symbols()[22].0 == "\\pm"@);
    assert(symbols()[23].0 == "\\mu"@);
    assert(symbols()[24].0 == "\\pi"@);
    assert(symbols()[25].0 == "\\tau"@);
    assert(symbols()[26].0 == "\\varepsilon"@);
    assert(symbols()[27].0 == "\\epsilon"@);
    assert(symbols()[28].0 == "\\phi"@);
    assert(symbols()[29].0 == "\\psi"@);
    assert(symbols()[30].0 == "\\Sigma"@);
    assert(symbols()[31].0 == "\\Delta"@);
    assert(symbols()[32].0 == "\\Omega"@);
    assert(symbols()[33].0 == "\\Gamma"@);
    assert(symbols()[34].0 == "\\langle"@);
    assert(symbols()[35].0 == "\\rangle"@);
    assert(symbols()[36].0 == "^0"@);
    assert(symbols()[37].0 == "^1"@);
    assert(symbols()[38].0 == "^2"@);
    assert(symbols()[39].0 == "^3"@);
    assert(symbols()[40].0 == "^4"@);
    assert(symbols()[41].0 == "^5"@);
    assert(symbols()[42].0 == "^6"@);
    assert(symbols()[43].0 == "^7"@);
    assert(symbols()[44].0 == "^8"@);
    assert(symbols()[45].0 == "^9"@);
    assert(symbols()[46].0 == "^n"@);
}

proof fn lemma_marks(k: int)
    requires
        0 <= k < symbols().len(),
    ensures
        nameless(symbols()[k].1),
{
    lemma_count();
    reveal_strlit("→");
    reveal_strlit("≈");
    reveal_strlit("∂");
    reveal_strlit("∇");
    reveal_strlit("∞");
    reveal_strlit("α");
    reveal_strlit("γ");
    reveal_strlit("δ");
    reveal_strlit("θ");
    reveal_strlit("λ");
    reveal_strlit("σ");
    reveal_strlit("ω");
    reveal_strlit("×");
    reveal_strlit("·");
    reveal_strlit("√");
    reveal_strlit("ℏ");
    reveal_strlit("β");
    reveal_strlit("≤");
    reveal_strlit("≥");
    reveal_strlit("≠");
    reveal_strlit("∑");
    reveal_strlit("∫");
    reveal_strlit("±");
    reveal_strlit("μ");
    reveal_strlit("π");
    reveal_strlit("τ");
    reveal_strlit("ε");
    reveal_strlit("ε");
    reveal_strlit("φ");
    reveal_strlit("ψ");
    reveal_strlit("Σ");
    reveal_strlit("Δ");
    reveal_strlit("Ω");
    reveal_strlit("Γ");
    reveal_strlit("⟨");
    reveal_strlit("⟩");
    reveal_strlit("⁰");
    reveal_strlit("¹");
    reveal_strlit("²");
    reveal_strlit("³");
    reveal_strlit("⁴");
    reveal_strlit("⁵");
    reveal_strlit("⁶");
    reveal_strlit("⁷");
    reveal_strlit("⁸");
    reveal_strlit("⁹");
    reveal_strlit("ⁿ");
    assert("→"@.len() == 1);
    assert("→"@[0] != '\\' && "→"@[0] != '^');
    assert("≈"@.len() == 1);
    assert("≈"@[0] != '\\' && "≈"@[0] != '^');
    assert("∂"@.len() == 1);
    assert("∂"@[0] != '\\' && "∂"@[0] != '^');
    assert("∇"@.len() == 1);
    assert("∇"@[0] != '\\' && "∇"@[0] != '^');
    assert("∞"@.len() == 1);
    assert("∞"@[0] != '\\' && "∞"@[0] != '^');
    assert("α"@.len() == 1);
    assert("α"@[0] != '\\' && "α"@[0] != '^');
    assert("γ"@.len() == 1);
    assert("γ"@[0] != '\\' && "γ"@[0] != '^');
    assert("δ"@.len() == 1);
    assert("δ"@[0] != '\\' && "δ"@[0] != '^');
    assert("θ"@.len() == 1);
    assert("θ"@[0] != '\\' && "θ"@[0] != '^');
    assert("λ"@.len() == 1);
    assert("λ"@[0] != '\\' && "λ"@[0] != '^');
    assert("σ"@.len() == 1);
    assert("σ"@[0] != '\\' && "σ"@[0] != '^');
    assert("ω"@.len() == 1);
    assert("ω"@[0] != '\\' && "ω"@[0] != '^');
    assert("×"@.len() == 1);
    assert("×"@[0] != '\\' && "×"@[0] != '^');
    assert("·"@.len() == 1);
    assert("·"@[0] != '\\' && "·"@[0] != '^');
    assert("√"@.len() == 1);
    assert("√"@[0] != '\\' && "√"@[0] != '^');
    assert("ℏ"@.len() == 1);
    assert("ℏ"@[0] != '\\' && "ℏ"@[0] != '^');
    assert("β"@.len() == 1);
    assert("β"@[0] != '\\' && "β"@[0] != '^');
    assert("≤"@.len() == 1);
    assert("≤"@[0] != '\\' && "≤"@[0] != '^');
    assert("≥"@.len() == 1);
    assert("≥"@[0] != '\\' && "≥"@[0] != '^');
    assert("≠"@.len() == 1);
    assert("≠"@[0] != '\\' && "≠"@[0] != '^');
    assert("∑"@.len() == 1);
    assert("∑"@[0] != '\\' && "∑"@[0] != '^');
    assert("∫"@.len() == 1);
    assert("∫"@[0] != '\\' && "∫"@[0] != '^');
    assert("±"@.len() == 1);
    assert("±"@[0] != '\\' && "±"@[0] != '^');
    assert("μ"@.len() == 1);
    assert("μ"@[0] != '\\' && "μ"@[0] != '^');
    assert("π"@.len() == 1);
    assert("π"@[0] != '\\' && "π"@[0] != '^');
    assert("τ"@.len() == 1);
    assert("τ"@[0] != '\\' && "τ"@[0] != '^');
    assert("ε"@.len() == 1);
    assert("ε"@[0] != '\\' && "ε"@[0] != '^');
    assert("ε"@.len() == 1);
    assert("ε"@[0] != '\\' && "ε"@[0] != '^');
    assert("φ"@.len() == 1);
    assert("φ"@[0] != '\\' && "φ"@[0] != '^');
    assert("ψ"@.len() == 1);
    assert("ψ"@[0] != '\\' && "ψ"@[0] != '^');
    assert("Σ"@.len() == 1);
    assert("Σ"@[0] != '\\' && "Σ"@[0] != '^');
    assert("Δ"@.len() == 1);
    assert("Δ"@[0] != '\\' && "Δ"@[0] != '^');
    assert("Ω"@.len() == 1);
    assert("Ω"@[0] != '\\' && "Ω"@[0] != '^');
    assert("Γ"@.len() == 1);
    assert("Γ"@[0] != '\\' && "Γ"@[0] != '^');
    assert("⟨"@.len() == 1);
    assert("⟨"@[0] != '\\' && "⟨"@[0] != '^');
    assert("⟩"@.len() == 1);
    assert("⟩"@[0] != '\\' && "⟩"@[0] != '^');
    assert("⁰"@.len() == 1);
    assert("⁰"@[0] != '\\' && "⁰"@[0] != '^');
    assert("¹"@.len() == 1);
    assert("¹"@[0] != '\\' && "¹"@[0] != '^');
    assert("²"@.len() == 1);
    assert("²"@[0] != '\\' && "²"@[0] != '^');
    assert("³"@.len() == 1);
    assert("³"@[0] != '\\' && "³"@[0] != '^');
    assert("⁴"@.len() == 1);
    assert("⁴"@[0] != '\\' && "⁴"@[0] != '^');
    assert("⁵"@.len() == 1);
    assert("⁵"@[0] != '\\' && "⁵"@[0] != '^');
    assert("⁶"@.len() == 1);
    assert("⁶"@[0] != '\\' && "⁶"@[0] != '^');
    assert("⁷"@.len() == 1);
    assert("⁷"@[0] != '\\' && "⁷"@[0] != '^');
    assert("⁸"@.len() == 1);
    assert("⁸"@[0] != '\\' && "⁸"@[0] != '^');
    assert("⁹"@.len() == 1);
    assert("⁹"@[0] != '\\' && "⁹"@[0] != '^');
    assert("ⁿ"@.len() == 1);
    assert("ⁿ"@[0] != '\\' && "ⁿ"@[0] != '^');
    assert(symbols()[0].1 == "→"@);
    assert(symbols()[1].1 == "≈"@);
    assert(symbols()[2].1 == "∂"@);
    assert(symbols()[3].1 == "∇"@);
    assert(symbols()[4].1 == "∞"@);
    assert(symbols()[5].1 == "α"@);
    assert(symbols()[6].1 == "γ"@);
    assert(symbols()[7].1 == "δ"@);
    assert(symbols()[8].1 == "θ"@);
    assert(symbols()[9].1 == "λ"@);
    assert(symbols()[10].1 == "σ"@);
    assert(symbols()[11].1 == "ω"@);
    assert(symbols()[12].1 == "×"@);
    assert(symbols()[13].1 == "·"@);
    assert(symbols()[14].1 == "√"@);
    assert(symbols()[15].1 == "ℏ"@);
    assert(symbols()[16].1 == "β"@);
    assert(symbols()[17].1 == "≤"@);
    assert(symbols()[18].1 == "≥"@);
    assert(symbols()[19].1 == "≠"@);
    assert(symbols()[20].1 == "∑"@);
    assert(symbols()[21].1 == "∫"@);
    assert(symbols()[22].1 == "±"@);
    assert(symbols()[23].1 == "μ"@);
    assert(symbols()[24].1 == "π"@);
    assert(symbols()[25].1 == "τ"@);
    assert(symbols()[26].1 == "ε"@);
    assert(symbols()[27].1 == "ε"@);
    assert(symbols()[28].1 == "φ"@);
    assert(symbols()[29].1 == "ψ"@);
    assert(symbols()[30].1 == "Σ"@);
    assert(symbols()[31].1 == "Δ"@);
    assert(symbols()[32].1 == "Ω"@);
    assert(symbols()[33].1 == "Γ"@);
    assert(symbols()[34].1 == "⟨"@);
    assert(symbols()[35].1 == "⟩"@);
    assert(symbols()[36].1 == "⁰"@);
    assert(symbols()[37].1 == "¹"@);
    assert(symbols()[38].1 == "²"@);
    assert(symbols()[39].1 == "³"@);
    assert(symbols()[40].1 == "⁴"@);
    assert(symbols()[41].1 == "⁵"@);
    assert(symbols()[42].1 == "⁶"@);
    assert(symbols()[43].1 == "⁷"@);
    assert(symbols()[44].1 == "⁸"@);
    assert(symbols()[45].1 == "⁹"@);
    assert(symbols()[46].1 == "ⁿ"@);
}

proof fn lemma_nothing_named(s: Seq<char>, name: Seq<char>, mark: Seq<char>)
    requires
        nameless(s),
        name.len() > 0,
        starts_symbol(name[0]),
    ensures
        replaced(s, name, mark) == s,
{
    assert forall|i: int| 0 <= i < s.len() implies !#[trigger] matches_at(s, name, i) by {
        if matches_at(s, name, i) {
            assert(s.subrange(i, i + name.len())[0] == s[i]);
        }
    }
    law_replacing_changes_occurrences_only(s, name, mark, s.len() as int);
}

/// A formula that names no symbol stays as it is, the TeX syntax aside.
pub proof fn law_plain_formulas_stay(s: Seq<char>)
    requires
        nameless(s),
    ensures
        unicode_approx(s) == s.filter(|c: char| c != '{' && c != '}' && c != '$' && c != '\\'),
{
    assert(with_symbols(s, symbols().take(0)) == s);
    lemma_rest(s, s, 0, symbols().len() as int);
    assert(symbols().take(symbols().len() as int) =~= symbols());
    assert((|c: char| !is_tex_syntax(c)) =~= (|c: char|
        c != '{' && c != '}' && c != '$' && c != '\\'));
}

proof fn lemma_not_yet(a: Seq<char>, k: int, b: Seq<char>, n: int)
    requires
        nameless(a),
        nameless(b),
        0 <= n <= k < symbols().len(),
        forall|i: int| 0 < i < symbols()[k].0.len() ==> !starts_symbol(#[trigger] symbols()[k].0[i]),
        forall|j: int| 0 <= j < k ==> !has_prefix(symbols()[k].0 + b, (#[trigger] symbols()[j]).0),
    ensures
        with_symbols(a + symbols()[k].0 + b, symbols().take(n)) == a + symbols()[k].0 + b,
    decreases n,
{
    let s = a + symbols()[k].0 + b;
    if n > 0 {
        lemma_not_yet(a, k, b, n - 1);
        let t = symbols().take(n);
        assert(t.drop_last() =~= symbols().take(n - 1));
        assert(t.last() == symbols()[n - 1]);
        let name = symbols()[n - 1].0;
        lemma_names(n - 1);
        lemma_names(k);
        assert forall|i: int| 0 <= i < s.len() implies !#[trigger] matches_at(s, name, i) by {
            if matches_at(s, name, i) {
                assert(s.subrange(i, i + name.len())[0] == s[i]);
                lemma_only_start(a, symbols()[k].0, b, i);
                let u = symbols()[k].0 + b;
                assert(u.subrange(0, name.len() as int) =~= s.subrange(i, i + name.len()));
                assert(has_prefix(u, name));
                assert(!has_prefix(symbols()[k].0 + b, symbols()[n - 1].0));
            }
        }
        law_replacing_changes_occurrences_only(s, name, symbols()[n - 1].1, s.len() as int);
    }
}

proof fn lemma_only_start(a: Seq<char>, name: Seq<char>, b: Seq<char>, i: int)
    requires
        nameless(a),
        nameless(b),
        forall|j: int| 0 < j < name.len() ==> !starts_symbol(#[trigger] name[j]),
        0 <= i < (a + name + b).len(),
        starts_symbol((a + name + b)[i]),
    ensures
        i == a.len(),
{
    let s = a + name + b;
    if i < a.len() {
        assert(s[i] == a[i]);
    } else if i < a.len() + name.len() {
        assert(s[i] == name[i - a.len()]);
    } else {
        assert(s[i] == b[i - a.len() - name.len()]);
    }
}

/// A symbol named in a formula is shown by its mark, in its place; the text
/// around it stays.
pub proof fn law_symbols_are_shown(a: Seq<char>, k: int, b: Seq<char>)
    requires
        nameless(a),
        nameless(b),
        0 <= k < symbols().len(),
        forall|i: int| 0 < i < symbols()[k].0.len() ==> !starts_symbol(#[trigger] symbols()[k].0[i]),
        forall|j: int| 0 <= j < k ==> !has_prefix(symbols()[k].0 + b, (#[trigger] symbols()[j]).0),
    ensures
        unicode_approx(a + symbols()[k].0 + b) == (a + symbols()[k].1 + b).filter(
            |c: char| c != '{' && c != '}' && c != '$' && c != '\\',
        ),
{
    let (name, mark) = symbols()[k];
    let s = a + name + b;
    let r = a + mark + b;
    lemma_not_yet(a, k, b, k);
    lemma_names(k);
    lemma_marks(k);
    let t = symbols().take(k + 1);
    assert(t.drop_last() =~= symbols().take(k));
    assert(t.last() == symbols()[k]);
    let at = a.len() as int;
    assert(s.subrange(at, at + name.len()) =~= name);
    assert forall|i: int| 0 <= i < at implies !#[trigger] matches_at(s, name, i) by {
        if matches_at(s, name, i) {
            assert(s.subrange(i, i + name.len())[0] == s[i]);
            lemma_only_start(a, name, b, i);
        }
    }
    law_replacing_changes_occurrences_only(s, name, mark, at);
    assert(s.take(at) =~= a);
    assert(s.skip(at + name.len()) =~= b);
    lemma_nothing_named(b, name, mark);
    assert(with_symbols(s, t) == r);
    assert(nameless(r)) by {
        assert forall|i: int| 0 <= i < r.len() implies !starts_symbol(#[trigger] r[i]) by {
            if i < a.len() {
                assert(r[i] == a[i]);
            } else if i < a.len() + mark.len() {
                assert(r[i] == mark[i - a.len()]);
            } else {
                assert(r[i] == b[i - a.len() - mark.len()]);
            }
        }
    }
    lemma_rest(s, r, k + 1, symbols().len() as int);
    assert(symbols().take(symbols().len() as int) =~= symbols());
    assert((|c: char| !is_tex_syntax(c)) =~= (|c: char|
        c != '{' && c != '}' && c != '$' && c != '\\'));
}

proof fn lemma_rest(s: Seq<char>, r: Seq<char>, from: int, n: int)
    requires
        nameless(r),
        0 <= from <= n <= symbols().len(),
        with_symbols(s, symbols().take(from)) == r,
    ensures
        with_symbols(s, symbols().take(n)) == r,
    decreases n,
{
    if n > from {
        lemma_rest(s, r, from, n - 1);
        let t = symbols().take(n);
        assert(t.drop_last() =~= symbols().take(n - 1));
        assert(t.last() == symbols()[n - 1]);
        lemma_names(n - 1);
        lemma_nothing_named(r, symbols()[n - 1].0, symbols()[n - 1].1);
    }
}

proof fn lemma_apart(u: Seq<char>, p: Seq<char>, i: int)
    requires
        0 <= i < u.len(),
        i < p.len(),
        u[i] != p[i],
    ensures
        !has_prefix(u, p),
{
    if has_prefix(u, p) {
        assert(u.subrange(0, p.len() as int)[i] == u[i]);
    }
}

proof fn lemma_alpha(a: Seq<char>, b: Seq<char>)
    requires
        nameless(a),
        nameless(b),
    ensures
        unicode_approx(a + seq!['\\', 'a', 'l', 'p', 'h', 'a'] + b) == without_syntax(a + seq!['α'] + b),
{
    lemma_count();
    reveal_strlit("\\alpha");
    reveal_strlit("α");
    reveal_strlit("\\rightarrow");
    reveal_strlit("\\approx");
    reveal_strlit("\\partial");
    reveal_strlit("\\nabla");
    reveal_strlit("\\infty");
    let name = "\\alpha"@;
    assert(name =~= seq!['\\', 'a', 'l', 'p', 'h', 'a']);
    assert("α"@ =~= seq!['α']);
    assert(symbols()[5] == (name, "α"@));
    let u = name + b;
    assert(symbols()[0].0 == "\\rightarrow"@);
    assert(u[1] == 'a' && "\\rightarrow"@[1] == 'r');
    lemma_apart(u, "\\rightarrow"@, 1);
    assert(symbols()[1].0 == "\\approx"@);
    assert(u[2] == 'l' && "\\approx"@[2] == 'p');
    lemma_apart(u, "\\approx"@, 2);
    assert(symbols()[2].0 == "\\partial"@);
    assert(u[1] == 'a' && "\\partial"@[1] == 'p');
    lemma_apart(u, "\\partial"@, 1);
    assert(symbols()[3].0 == "\\nabla"@);
    assert(u[1] == 'a' && "\\nabla"@[1] == 'n');
    lemma_apart(u, "\\nabla"@, 1);
    assert(symbols()[4].0 == "\\infty"@);
    assert(u[1] == 'a' && "\\infty"@[1] == 'i');
    lemma_apart(u, "\\infty"@, 1);
    assert forall|j: int| 0 <= j < 5 implies !has_prefix(u, (#[trigger] symbols()[j]).0) by {
        assert(j == 0 || j == 1 || j == 2 || j == 3 || j == 4);
    }
    law_symbols_are_shown(a, 5, b);
}

proof fn lemma_beta(a: Seq<char>, b: Seq<char>)
    requires
        nameless(a),
        nameless(b),
    ensures
        unicode_approx(a + seq!['\\', 'b', 'e', 't', 'a'] + b) == without_syntax(a + seq!['β'] + b),
{
    lemma_count();
    reveal_strlit("\\beta");
    reveal_strlit("β");
    reveal_strlit("\\rightarrow");
    reveal_strlit("\\approx");
    reveal_strlit("\\partial");
    reveal_strlit("\\nabla");
    reveal_strlit("\\infty");
    reveal_strlit("\\alpha");
    reveal_strlit("\\gamma");
    reveal_strlit("\\delta");
    reveal_strlit("\\theta");
    reveal_strlit("\\lambda");
    reveal_strlit("\\sigma");
    reveal_strlit("\\omega");
    reveal_strlit("\\times");
    reveal_strlit("\\cdot");
    reveal_strlit("\\sqrt");
    reveal_strlit("\\hbar");
    let name = "\\beta"@;
    assert(name =~= seq!['\\', 'b', 'e', 't', 'a']);
    assert("β"@ =~= seq!['β']);
    assert(symbols()[16] == (name, "β"@));
    let u = name + b;
    assert(symbols()[0].0 == "\\rightarrow"@);
    assert(u[1] == 'b' && "\\rightarrow"@[1] == 'r');
    lemma_apart(u, "\\rightarrow"@, 1);
    assert(symbols()[1].0 == "\\approx"@);
    assert(u[1] == 'b' && "\\approx"@[1] == 'a');
    lemma_apart(u, "\\approx"@, 1);
    assert(symbols()[2].0 == "\\partial"@);
    assert(u[1] == 'b' && "\\partial"@[1] == 'p');
    lemma_apart(u, "\\partial"@, 1);
    assert(symbols()[3].0 == "\\nabla"@);
    assert(u[1] == 'b' && "\\nabla"@[1] == 'n');
    lemma_apart(u, "\\nabla"@, 1);
    assert(symbols()[4].0 == "\\infty"@);
    assert(u[1] == 'b' && "\\infty"@[1] == 'i');
    lemma_apart(u, "\\infty"@, 1);
    assert(symbols()[5].0 == "\\alpha"@);
    assert(u[1] == 'b' && "\\alpha"@[1] == 'a');
    lemma_apart(u, "\\alpha"@, 1);
    assert(symbols()[6].0 == "\\gamma"@);
    assert(u[1] == 'b' && "\\gamma"@[1] == 'g');
    lemma_apart(u, "\\gamma"@, 1);
    assert(symbols()[7].0 == "\\delta"@);
    assert(u[1] == 'b' && "\\delta"@[1] == 'd');
    lemma_apart(u, "\\delta"@, 1);
    assert(symbols()[8].0 == "\\theta"@);
    assert(u[1] == 'b' && "\\theta"@[1] == 't');
    lemma_apart(u, "\\theta"@, 1);
    assert(symbols()[9].0 == "\\lambda"@);
    assert(u[1] == 'b' && "\\lambda"@[1] == 'l');
    lemma_apart(u, "\\lambda"@, 1);
    assert(symbols()[10].0 == "\\sigma"@);
    assert(u[1] == 'b' && "\\sigma"@[1] == 's');
    lemma_apart(u, "\\sigma"@, 1);
    assert(symbols()[11].0 == "\\omega"@);
    assert(u[1] == 'b' && "\\omega"@[1] == 'o');
    lemma_apart(u, "\\omega"@, 1);
    assert(symbols()[12].0 == "\\times"@);
    assert(u[1] == 'b' && "\\times"@[1] == 't');
    lemma_apart(u, "\\times"@, 1);
    assert(symbols()[13].0 == "\\cdot"@);
    assert(u[1] == 'b' && "\\cdot"@[1] == 'c');
    lemma_apart(u, "\\cdot"@, 1);
    assert(symbols()[14].0 == "\\sqrt"@);
    assert(u[1] == 'b' && "\\sqrt"@[1] == 's');
    lemma_apart(u, "\\sqrt"@, 1);
    assert(symbols()[15].0 == "\\hbar"@);
    assert(u[1] == 'b' && "\\hbar"@[1] == 'h');
    lemma_apart(u, "\\hbar"@, 1);
    assert forall|j: int| 0 <= j < 16 implies !has_prefix(u, (#[trigger] symbols()[j]).0) by {
        assert(j == 0 || j == 1 || j == 2 || j == 3 || j == 4 || j == 5 || j == 6 || j == 7 || j == 8 || j == 9 || j == 10 || j == 11 || j == 12 || j == 13 || j == 14 || j == 15);
    }
    law_symbols_are_shown(a, 16, b);
}

proof fn lemma_pi(a: Seq<char>, b: Seq<char>)
    requires
        nameless(a),
        nameless(b),
    ensures
        unicode_approx(a + seq!['\\', 'p', 'i'] + b) == without_syntax(a + seq!['π'] + b),
{
    lemma_count();
    reveal_strlit("\\pi");
    reveal_strlit("π");
    reveal_strlit("\\rightarrow");
    reveal_strlit("\\approx");
    reveal_strlit("\\partial");
    reveal_strlit("\\nabla");
    reveal_strlit("\\infty");
    reveal_strlit("\\alpha");
    reveal_strlit("\\gamma");
    reveal_strlit("\\delta");
    reveal_strlit("\\theta");
    reveal_strlit("\\lambda");
    reveal_strlit("\\sigma");
    reveal_strlit("\\omega");
    reveal_strlit("\\times");
    reveal_strlit("\\cdot");
    reveal_strlit("\\sqrt");
    reveal_strlit("\\hbar");
    reveal_strlit("\\beta");
    reveal_strlit("\\leq");
    reveal_strlit("\\geq");
    reveal_strlit("\\neq");
    reveal_strlit("\\sum");
    reveal_strlit("\\int");
    reveal_strlit("\\pm");
    reveal_strlit("\\mu");
    let name = "\\pi"@;
    assert(name =~= seq!['\\', 'p', 'i']);
    assert("π"@ =~= seq!['π']);
    assert(symbols()[24] == (name, "π"@));
    let u = name + b;
    assert(symbols()[0].0 == "\\rightarrow"@);
    assert(u[1] == 'p' && "\\rightarrow"@[1] == 'r');
    lemma_apart(u, "\\rightarrow"@, 1);
    assert(symbols()[1].0 == "\\approx"@);
    assert(u[1] == 'p' && "\\approx"@[1] == 'a');
    lemma_apart(u, "\\approx"@, 1);
    assert(symbols()[2].0 == "\\partial"@);
    assert(u[2] == 'i' && "\\partial"@[2] == 'a');
    lemma_apart(u, "\\partial"@, 2);
    assert(symbols()[3].0 == "\\nabla"@);
    assert(u[1] == 'p' && "\\nabla"@[1] == 'n');
    lemma_apart(u, "\\nabla"@, 1);
    assert(symbols()[4].0 == "\\infty"@);
    assert(u[1] == 'p' && "\\infty"@[1] == 'i');
    lemma_apart(u, "\\infty"@, 1);
    assert(symbols()[5].0 == "\\alpha"@);
    assert(u[1] == 'p' && "\\alpha"@[1] == 'a');
    lemma_apart(u, "\\alpha"@, 1);
    assert(symbols()[6].0 == "\\gamma"@);
    assert(u[1] == 'p' && "\\gamma"@[1] == 'g');
    lemma_apart(u, "\\gamma"@, 1);
    assert(symbols()[7].0 == "\\delta"@);
    assert(u[1] == 'p' && "\\delta"@[1] == 'd');
    lemma_apart(u, "\\delta"@, 1);
    assert(symbols()[8].0 == "\\theta"@);
    assert(u[1] == 'p' && "\\theta"@[1] == 't');
    lemma_apart(u, "\\theta"@, 1);
    assert(symbols()[9].0 == "\\lambda"@);
    assert(u[1] == 'p' && "\\lambda"@[1] == 'l');
    lemma_apart(u, "\\lambda"@, 1);
    assert(symbols()[10].0 == "\\sigma"@);
    assert(u[1] == 'p' && "\\sigma"@[1] == 's');
    lemma_apart(u, "\\sigma"@, 1);
    assert(symbols()[11].0 == "\\omega"@);
    assert(u[1] == 'p' && "\\omega"@[1] == 'o');
    lemma_apart(u, "\\omega"@, 1);
    assert(symbols()[12].0 == "\\times"@);
    assert(u[1] == 'p' && "\\times"@[1] == 't');
    lemma_apart(u, "\\times"@, 1);
    assert(symbols()[13].0 == "\\cdot"@);
    assert(u[1] == 'p' && "\\cdot"@[1] == 'c');
    lemma_apart(u, "\\cdot"@, 1);
    assert(symbols()[14].0 == "\\sqrt"@);
    assert(u[1] == 'p' && "\\sqrt"@[1] == 's');
    lemma_apart(u, "\\sqrt"@, 1);
    assert(symbols()[15].0 == "\\hbar"@);
    assert(u[1] == 'p' && "\\hbar"@[1] == 'h');
    lemma_apart(u, "\\hbar"@, 1);
    assert(symbols()[16].0 == "\\beta"@);
    assert(u[1] == 'p' && "\\beta"@[1] == 'b');
    lemma_apart(u, "\\beta"@, 1);
    assert(symbols()[17].0 == "\\leq"@);
    assert(u[1] == 'p' && "\\leq"@[1] == 'l');
    lemma_apart(u, "\\leq"@, 1);
    assert(symbols()[18].0 == "\\geq"@);
    assert(u[1] == 'p' && "\\geq"@[1] == 'g');
    lemma_apart(u, "\\geq"@, 1);
    assert(symbols()[19].0 == "\\neq"@);
    assert(u[1] == 'p' && "\\neq"@[1] == 'n');
    lemma_apart(u, "\\neq"@, 1);
    assert(symbols()[20].0 == "\\sum"@);
    assert(u[1] == 'p' && "\\sum"@[1] == 's');
    lemma_apart(u, "\\sum"@, 1);
    assert(symbols()[21].0 == "\\int"@);
    assert(u[1] == 'p' && "\\int"@[1] == 'i');
    lemma_apart(u, "\\int"@, 1);
    assert(symbols()[22].0 == "\\pm"@);
    assert(u[2] == 'i' && "\\pm"@[2] == 'm');
    lemma_apart(u, "\\pm"@, 2);
    assert(symbols()[23].0 == "\\mu"@);
    assert(u[1] == 'p' && "\\mu"@[1] == 'm');
    lemma_apart(u, "\\mu"@, 1);
    assert forall|j: int| 0 <= j < 24 implies !has_prefix(u, (#[trigger] symbols()[j]).0) by {
        assert(j == 0 || j == 1 || j == 2 || j == 3 || j == 4 || j == 5 || j == 6 || j == 7 || j == 8 || j == 9 || j == 10 || j == 11 || j == 12 || j == 13 || j == 14 || j == 15 || j == 16 || j == 17 || j == 18 || j == 19 || j == 20 || j == 21 || j == 22 || j == 23);
    }
    law_symbols_are_shown(a, 24, b);
}

proof fn lemma_infty(a: Seq<char>, b: Seq<char>)
    requires
        nameless(a),
        nameless(b),
    ensures
        unicode_approx(a + seq!['\\', 'i', 'n', 'f', 't', 'y'] + b) == without_syntax(a + seq!['∞'] + b),
{
    lemma_count();
    reveal_strlit("\\infty");
    reveal_strlit("∞");
    reveal_strlit("\\rightarrow");
    reveal_strlit("\\approx");
    reveal_strlit("\\partial");
    reveal_strlit("\\nabla");
    let name = "\\infty"@;
    assert(name =~= seq!['\\', 'i', 'n', 'f', 't', 'y']);
    assert("∞"@ =~= seq!['∞']);
    assert(symbols()[4] == (name, "∞"@));
    let u = name + b;
    assert(symbols()[0].0 == "\\rightarrow"@);
    assert(u[1] == 'i' && "\\rightarrow"@[1] == 'r');
    lemma_apart(u, "\\rightarrow"@, 1);
    assert(symbols()[1].0 == "\\approx"@);
    assert(u[1] == 'i' && "\\approx"@[1] == 'a');
    lemma_apart(u, "\\approx"@, 1);
    assert(symbols()[2].0 == "\\partial"@);
    assert(u[1] == 'i' && "\\partial"@[1] == 'p');
    lemma_apart(u, "\\partial"@, 1);
    assert(symbols()[3].0 == "\\nabla"@);
    assert(u[1] == 'i' && "\\nabla"@[1] == 'n');
    lemma_apart(u, "\\nabla"@, 1);
    assert forall|j: int| 0 <= j < 4 implies !has_prefix(u, (#[trigger] symbols()[j]).0) by {
        assert(j == 0 || j == 1 || j == 2 || j == 3);
    }
    law_symbols_are_shown(a, 4, b);
}

proof fn lemma_sum(a: Seq<char>, b: Seq<char>)
    requires
        nameless(a),
        nameless(b),
    ensures
        unicode_approx(a + seq!['\\', 's', 'u', 'm'] + b) == without_syntax(a + seq!['∑'] + b),
{
    lemma_count();
    reveal_strlit("\\sum");
    reveal_strlit("∑");
    reveal_strlit("\\rightarrow");
    reveal_strlit("\\approx");
    reveal_strlit("\\partial");
    reveal_strlit("\\nabla");
    reveal_strlit("\\infty");
    reveal_strlit("\\alpha");
    reveal_strlit("\\gamma");
    reveal_strlit("\\delta");
    reveal_strlit("\\theta");
    reveal_strlit("\\lambda");
    reveal_strlit("\\sigma");
    reveal_strlit("\\omega");
    reveal_strlit("\\times");
    reveal_strlit("\\cdot");
    reveal_strlit("\\sqrt");
    reveal_strlit("\\hbar");
    reveal_strlit("\\beta");
    reveal_strlit("\\leq");
    reveal_strlit("\\geq");
    reveal_strlit("\\neq");
    let name = "\\sum"@;
    assert(name =~= seq!['\\', 's', 'u', 'm']);
    assert("∑"@ =~= seq!['∑']);
    assert(symbols()[20] == (name, "∑"@));
    let u = name + b;
    assert(symbols()[0].0 == "\\rightarrow"@);
    assert(u[1] == 's' && "\\rightarrow"@[1] == 'r');
    lemma_apart(u, "\\rightarrow"@, 1);
    assert(symbols()[1].0 == "\\approx"@);
    assert(u[1] == 's' && "\\approx"@[1] == 'a');
    lemma_apart(u, "\\approx"@, 1);
    assert(symbols()[2].0 == "\\partial"@);
    assert(u[1] == 's' && "\\partial"@[1] == 'p');
    lemma_apart(u, "\\partial"@, 1);
    assert(symbols()[3].0 == "\\nabla"@);
    assert(u[1] == 's' && "\\nabla"@[1] == 'n');
    lemma_apart(u, "\\nabla"@, 1);
    assert(symbols()[4].0 == "\\infty"@);
    assert(u[1] == 's' && "\\infty"@[1] == 'i');
    lemma_apart(u, "\\infty"@, 1);
    assert(symbols()[5].0 == "\\alpha"@);
    assert(u[1] == 's' && "\\alpha"@[1] == 'a');
    lemma_apart(u, "\\alpha"@, 1);
    assert(symbols()[6].0 == "\\gamma"@);
    assert(u[1] == 's' && "\\gamma"@[1] == 'g');
    lemma_apart(u, "\\gamma"@, 1);
    assert(symbols()[7].0 == "\\delta"@);
    assert(u[1] == 's' && "\\delta"@[1] == 'd');
    lemma_apart(u, "\\delta"@, 1);
    assert(symbols()[8].0 == "\\theta"@);
    assert(u[1] == 's' && "\\theta"@[1] == 't');
    lemma_apart(u, "\\theta"@, 1);
    assert(symbols()[9].0 == "\\lambda"@);
    assert(u[1] == 's' && "\\lambda"@[1] == 'l');
    lemma_apart(u, "\\lambda"@, 1);
    assert(symbols()[10].0 == "\\sigma"@);
    assert(u[2] == 'u' && "\\sigma"@[2] == 'i');
    lemma_apart(u, "\\sigma"@, 2);
    assert(symbols()[11].0 == "\\omega"@);
    assert(u[1] == 's' && "\\omega"@[1] == 'o');
    lemma_apart(u, "\\omega"@, 1);
    assert(symbols()[12].0 == "\\times"@);
    assert(u[1] == 's' && "\\times"@[1] == 't');
    lemma_apart(u, "\\times"@, 1);
    assert(symbols()[13].0 == "\\cdot"@);
    assert(u[1] == 's' && "\\cdot"@[1] == 'c');
    lemma_apart(u, "\\cdot"@, 1);
    assert(symbols()[14].0 == "\\sqrt"@);
    assert(u[2] == 'u' && "\\sqrt"@[2] == 'q');
    lemma_apart(u, "\\sqrt"@, 2);
    assert(symbols()[15].0 == "\\hbar"@);
    assert(u[1] == 's' && "\\hbar"@[1] == 'h');
    lemma_apart(u, "\\hbar"@, 1);
    assert(symbols()[16].0 == "\\beta"@);
    assert(u[1] == 's' && "\\beta"@[1] == 'b');
    lemma_apart(u, "\\beta"@, 1);
    assert(symbols()[17].0 == "\\leq"@);
    assert(u[1] == 's' && "\\leq"@[1] == 'l');
    lemma_apart(u, "\\leq"@, 1);
    assert(symbols()[18].0 == "\\geq"@);
    assert(u[1] == 's' && "\\geq"@[1] == 'g');
    lemma_apart(u, "\\geq"@, 1);
    assert(symbols()[19].0 == "\\neq"@);
    assert(u[1] == 's' && "\\neq"@[1] == 'n');
    lemma_apart(u, "\\neq"@, 1);
    assert forall|j: int| 0 <= j < 20 implies !has_prefix(u, (#[trigger] symbols()[j]).0) by {
        assert(j == 0 || j == 1 || j == 2 || j == 3 || j == 4 || j == 5 || j == 6 || j == 7 || j == 8 || j == 9 || j == 10 || j == 11 || j == 12 || j == 13 || j == 14 || j == 15 || j == 16 || j == 17 || j == 18 || j == 19);
    }
    law_symbols_are_shown(a, 20, b);
}

proof fn lemma_square(a: Seq<char>, b: Seq<char>)
    requires
        nameless(a),
        nameless(b),
    ensures
        unicode_approx(a + seq!['^', '2'] + b) == without_syntax(a + seq!['²'] + b),
{
    lemma_count();
    reveal_strlit("^2");
    reveal_strlit("²");
    reveal_strlit("\\rightarrow");
    reveal_strlit("\\approx");
    reveal_strlit("\\partial");
    reveal_strlit("\\nabla");
    reveal_strlit("\\infty");
    reveal_strlit("\\alpha");
    reveal_strlit("\\gamma");
    reveal_strlit("\\delta");
    reveal_strlit("\\theta");
    reveal_strlit("\\lambda");
    reveal_strlit("\\sigma");
    reveal_strlit("\\omega");
    reveal_strlit("\\times");
    reveal_strlit("\\cdot");
    reveal_strlit("\\sqrt");
    reveal_strlit("\\hbar");
    reveal_strlit("\\beta");
    reveal_strlit("\\leq");
    reveal_strlit("\\geq");
    reveal_strlit("\\neq");
    reveal_strlit("\\sum");
    reveal_strlit("\\int");
    reveal_strlit("\\pm");
    reveal_strlit("\\mu");
    reveal_strlit("\\pi");
    reveal_strlit("\\tau");
    reveal_strlit("\\varepsilon");
    reveal_strlit("\\epsilon");
    reveal_strlit("\\phi");
    reveal_strlit("\\psi");
    reveal_strlit("\\Sigma");
    reveal_strlit("\\Delta");
    reveal_strlit("\\Omega");
    reveal_strlit("\\Gamma");
    reveal_strlit("\\langle");
    reveal_strlit("\\rangle");
    reveal_strlit("^0");
    reveal_strlit("^1");
    let name = "^2"@;
    assert(name =~= seq!['^', '2']);
    assert("²"@ =~= seq!['²']);
    assert(symbols()[38] == (name, "²"@));
    let u = name + b;
    assert(symbols()[0].0 == "\\rightarrow"@);
    assert(u[0] == '^' && "\\rightarrow"@[0] == '\\');
    lemma_apart(u, "\\rightarrow"@, 0);
    assert(symbols()[1].0 == "\\approx"@);
    assert(u[0] == '^' && "\\approx"@[0] == '\\');
    lemma_apart(u, "\\approx"@, 0);
    assert(symbols()[2].0 == "\\partial"@);
    assert(u[0] == '^' && "\\partial"@[0] == '\\');
    lemma_apart(u, "\\partial"@, 0);
    assert(symbols()[3].0 == "\\nabla"@);
    assert(u[0] == '^' && "\\nabla"@[0] == '\\');
    lemma_apart(u, "\\nabla"@, 0);
    assert(symbols()[4].0 == "\\infty"@);
    assert(u[0] == '^' && "\\infty"@[0] == '\\');
    lemma_apart(u, "\\infty"@, 0);
    assert(symbols()[5].0 == "\\alpha"@);
    assert(u[0] == '^' && "\\alpha"@[0] == '\\');
    lemma_apart(u, "\\alpha"@, 0);
    assert(symbols()[6].0 == "\\gamma"@);
    assert(u[0] == '^' && "\\gamma"@[0] == '\\');
    lemma_apart(u, "\\gamma"@, 0);
    assert(symbols()[7].0 == "\\delta"@);
    assert(u[0] == '^' && "\\delta"@[0] == '\\');
    lemma_apart(u, "\\delta"@, 0);
    assert(symbols()[8].0 == "\\theta"@);
    assert(u[0] == '^' && "\\theta"@[0] == '\\');
    lemma_apart(u, "\\theta"@, 0);
    assert(symbols()[9].0 == "\\lambda"@);
    assert(u[0] == '^' && "\\lambda"@[0] == '\\');
    lemma_apart(u, "\\lambda"@, 0);
    assert(symbols()[10].0 == "\\sigma"@);
    assert(u[0] == '^' && "\\sigma"@[0] == '\\');
    lemma_apart(u, "\\sigma"@, 0);
    assert(symbols()[11].0 == "\\omega"@);
    assert(u[0] == '^' && "\\omega"@[0] == '\\');
    lemma_apart(u, "\\omega"@, 0);
    assert(symbols()[12].0 == "\\times"@);
    assert(u[0] == '^' && "\\times"@[0] == '\\');
    lemma_apart(u, "\\times"@, 0);
    assert(symbols()[13].0 == "\\cdot"@);
    assert(u[0] == '^' && "\\cdot"@[0] == '\\');
    lemma_apart(u, "\\cdot"@, 0);
    assert(symbols()[14].0 == "\\sqrt"@);
    assert(u[0] == '^' && "\\sqrt"@[0] == '\\');
    lemma_apart(u, "\\sqrt"@, 0);
    assert(symbols()[15].0 == "\\hbar"@);
    assert(u[0] == '^' && "\\hbar"@[0] == '\\');
    lemma_apart(u, "\\hbar"@, 0);
    assert(symbols()[16].0 == "\\beta"@);
    assert(u[0] == '^' && "\\beta"@[0] == '\\');
    lemma_apart(u, "\\beta"@, 0);
    assert(symbols()[17].0 == "\\leq"@);
    assert(u[0] == '^' && "\\leq"@[0] == '\\');
    lemma_apart(u, "\\leq"@, 0);
    assert(symbols()[18].0 == "\\geq"@);
    assert(u[0] == '^' && "\\geq"@[0] == '\\');
    lemma_apart(u, "\\geq"@, 0);
    assert(symbols()[19].0 == "\\neq"@);
    assert(u[0] == '^' && "\\neq"@[0] == '\\');
    lemma_apart(u, "\\neq"@, 0);
    assert(symbols()[20].0 == "\\sum"@);
    assert(u[0] == '^' && "\\sum"@[0] == '\\');
    lemma_apart(u, "\\sum"@, 0);
    assert(symbols()[21].0 == "\\int"@);
    assert(u[0] == '^' && "\\int"@[0] == '\\');
    lemma_apart(u, "\\int"@, 0);
    assert(symbols()[22].0 == "\\pm"@);
    assert(u[0] == '^' && "\\pm"@[0] == '\\');
    lemma_apart(u, "\\pm"@, 0);
    assert(symbols()[23].0 == "\\mu"@);
    assert(u[0] == '^' && "\\mu"@[0] == '\\');
    lemma_apart(u, "\\mu"@, 0);
    assert(symbols()[24].0 == "\\pi"@);
    assert(u[0] == '^' && "\\pi"@[0] == '\\');
    lemma_apart(u, "\\pi"@, 0);
    assert(symbols()[25].0 == "\\tau"@);
    assert(u[0] == '^' && "\\tau"@[0] == '\\');
    lemma_apart(u, "\\tau"@, 0);
    assert(symbols()[26].0 == "\\varepsilon"@);
    assert(u[0] == '^' && "\\varepsilon"@[0] == '\\');
    lemma_apart(u, "\\varepsilon"@, 0);
    assert(symbols()[27].0 == "\\epsilon"@);
    assert(u[0] == '^' && "\\epsilon"@[0] == '\\');
    lemma_apart(u, "\\epsilon"@, 0);
    assert(symbols()[28].0 == "\\phi"@);
    assert(u[0] == '^' && "\\phi"@[0] == '\\');
    lemma_apart(u, "\\phi"@, 0);
    assert(symbols()[29].0 == "\\psi"@);
    assert(u[0] == '^' && "\\psi"@[0] == '\\');
    lemma_apart(u, "\\psi"@, 0);
    assert(symbols()[30].0 == "\\Sigma"@);
    assert(u[0] == '^' && "\\Sigma"@[0] == '\\');
    lemma_apart(u, "\\Sigma"@, 0);
    assert(symbols()[31].0 == "\\Delta"@);
    assert(u[0] == '^' && "\\Delta"@[0] == '\\');
    lemma_apart(u, "\\Delta"@, 0);
    assert(symbols()[32].0 == "\\Omega"@);
    assert(u[0] == '^' && "\\Omega"@[0] == '\\');
    lemma_apart(u, "\\Omega"@, 0);
    assert(symbols()[33].0 == "\\Gamma"@);
    assert(u[0] == '^' && "\\Gamma"@[0] == '\\');
    lemma_apart(u, "\\Gamma"@, 0);
    assert(symbols()[34].0 == "\\langle"@);
    assert(u[0] == '^' && "\\langle"@[0] == '\\');
    lemma_apart(u, "\\langle"@, 0);
    assert(symbols()[35].0 == "\\rangle"@);
    assert(u[0] == '^' && "\\rangle"@[0] == '\\');
    lemma_apart(u, "\\rangle"@, 0);
    assert(symbols()[36].0 == "^0"@);
    assert(u[1] == '2' && "^0"@[1] == '0');
    lemma_apart(u, "^0"@, 1);
    assert(symbols()[37].0 == "^1"@);
    assert(u[1] == '2' && "^1"@[1] == '1');
    lemma_apart(u, "^1"@, 1);
    assert forall|j: int| 0 <= j < 38 implies !has_prefix(u, (#[trigger] symbols()[j]).0) by {
        assert(j == 0 || j == 1 || j == 2 || j == 3 || j == 4 || j == 5 || j == 6 || j == 7 || j == 8 || j == 9 || j == 10 || j == 11 || j == 12 || j == 13 || j == 14 || j == 15 || j == 16 || j == 17 || j == 18 || j == 19 || j == 20 || j == 21 || j == 22 || j == 23 || j == 24 || j == 25 || j == 26 || j == 27 || j == 28 || j == 29 || j == 30 || j == 31 || j == 32 || j == 33 || j == 34 || j == 35 || j == 36 || j == 37);
    }
    law_symbols_are_shown(a, 38, b);
}

/// The TeX syntax dropped.
pub open spec fn without_syntax(s: Seq<char>) -> Seq<char> {
    s.filter(|c: char| c != '{' && c != '}' && c != '$' && c != '\\')
}

/// Greek letters, sums, infinity and powers in a formula, whatever stands
/// around them.
pub proof fn law_common_symbols(a: Seq<char>, b: Seq<char>)
    requires
        nameless(a),
        nameless(b),
    ensures
        unicode_approx(a + seq!['\\', 'a', 'l', 'p', 'h', 'a'] + b) == without_syntax(a + seq!['α'] + b),
        unicode_approx(a + seq!['\\', 'b', 'e', 't', 'a'] + b) == without_syntax(a + seq!['β'] + b),
        unicode_approx(a + seq!['\\', 'p', 'i'] + b) == without_syntax(a + seq!['π'] + b),
        unicode_approx(a + seq!['\\', 'i', 'n', 'f', 't', 'y'] + b) == without_syntax(a + seq!['∞'] + b),
        unicode_approx(a + seq!['\\', 's', 'u', 'm'] + b) == without_syntax(a + seq!['∑'] + b),
        unicode_approx(a + seq!['^', '2'] + b) == without_syntax(a + seq!['²'] + b),
{
    lemma_alpha(a, b);
    lemma_beta(a, b);
    lemma_pi(a, b);
    lemma_infty(a, b);
    lemma_sum(a, b);
    lemma_square(a, b);
}

} // verus!
