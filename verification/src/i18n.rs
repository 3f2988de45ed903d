//! Translations for the strings the native side owns: the tray menu, native
//! toasts and editor window titles.
use vstd::prelude::*;
use crate::text::{chars_of, push_char, str_eq};

verus! {

/// The native texts in one language.
pub struct Strings {
    pub tray_show: &'static str,
    pub tray_quit: &'static str,
    pub update_title: &'static str,
    /// Contains a single `{version}` placeholder.
    pub update_body: &'static str,
    pub update_installed_title: &'static str,
    pub update_installed_body: &'static str,
}

/// The texts of a `Strings`, as plain values.
pub struct StringsView {
    pub tray_show: Seq<char>,
    pub tray_quit: Seq<char>,
    pub update_title: Seq<char>,
    pub update_body: Seq<char>,
    pub update_installed_title: Seq<char>,
    pub update_installed_body: Seq<char>,
}

impl View for Strings {
    type V = StringsView;

    open spec fn view(&self) -> StringsView {
        StringsView {
            tray_show: self.tray_show@,
            tray_quit: self.tray_quit@,
            update_title: self.update_title@,
            update_body: self.update_body@,
            update_installed_title: self.update_installed_title@,
            update_installed_body: self.update_installed_body@,
        }
    }
}

/// The Portuguese texts.
pub open spec fn pt_strings() -> StringsView {
    StringsView {
        tray_show: "Abrir LibreOffice Collab"@,
        tray_quit: "Sair"@,
        update_title: "Nova versão disponível"@,
        update_body: "A versão {version} já está disponível. Atualizar e reiniciar?"@,
        update_installed_title: "Atualização instalada"@,
        update_installed_body: "O LibreOffice Collab vai reiniciar para concluir."@,
    }
}

/// The English texts.
pub open spec fn en_strings() -> StringsView {
    StringsView {
        tray_show: "Open LibreOffice Collab"@,
        tray_quit: "Quit"@,
        update_title: "New version available"@,
        update_body: "Version {version} is available. Update and restart?"@,
        update_installed_title: "Update installed"@,
        update_installed_body: "LibreOffice Collab will restart to finish."@,
    }
}

/// The texts for a language: English for "en", Portuguese for anything else.
pub open spec fn strings_spec(language: Seq<char>) -> StringsView {
    if language == "en"@ {
        en_strings()
    } else {
        pt_strings()
    }
}

/// Portuguese is the fallback for anything that is not explicitly English.
pub fn strings(language: &str) -> (r: Strings)
    ensures
        r@ == strings_spec(language@),
{
    if str_eq(language, "en") {
        Strings {
            tray_show: "Open LibreOffice Collab",
            tray_quit: "Quit",
            update_title: "New version available",
            update_body: "Version {version} is available. Update and restart?",
            update_installed_title: "Update installed",
            update_installed_body: "LibreOffice Collab will restart to finish.",
        }
    } else {
        Strings {
            tray_show: "Abrir LibreOffice Collab",
            tray_quit: "Sair",
            update_title: "Nova versão disponível",
            update_body: "A versão {version} já está disponível. Atualizar e reiniciar?",
            update_installed_title: "Atualização instalada",
            update_installed_body: "O LibreOffice Collab vai reiniciar para concluir.",
        }
    }
}

/// English for "en", Portuguese for every other language, text by text.
pub proof fn lemma_strings_by_language(language: Seq<char>)
    ensures
        language == "en"@ ==> {
            &&& strings_spec(language).tray_show == "Open LibreOffice Collab"@
            &&& strings_spec(language).tray_quit == "Quit"@
            &&& strings_spec(language).update_title == "New version available"@
            &&& strings_spec(language).update_body
                == "Version {version} is available. Update and restart?"@
            &&& strings_spec(language).update_installed_title == "Update installed"@
            &&& strings_spec(language).update_installed_body
                == "LibreOffice Collab will restart to finish."@
        },
        language != "en"@ ==> {
            &&& strings_spec(language).tray_show == "Abrir LibreOffice Collab"@
            &&& strings_spec(language).tray_quit == "Sair"@
            &&& strings_spec(language).update_title == "Nova versão disponível"@
            &&& strings_spec(language).update_body
                == "A versão {version} já está disponível. Atualizar e reiniciar?"@
            &&& strings_spec(language).update_installed_title == "Atualização instalada"@
            &&& strings_spec(language).update_installed_body
                == "O LibreOffice Collab vai reiniciar para concluir."@
        },
{
}

/// Every occurrence of `pat` in `t` replaced by `val`, scanning left to
/// right without overlaps, as `str::replace` does (for a non-empty pattern).
pub open spec fn replace_all(t: Seq<char>, pat: Seq<char>, val: Seq<char>) -> Seq<char>
    decreases t.len(),
{
    if pat.len() == 0 || t.len() < pat.len() {
        t
    } else if t.subrange(0, pat.len() as int) == pat {
        val + replace_all(t.subrange(pat.len() as int, t.len() as int), pat, val)
    } else {
        seq![t[0]] + replace_all(t.drop_first(), pat, val)
    }
}

/// The placeholder `{name}`.
pub open spec fn placeholder(name: Seq<char>) -> Seq<char> {
    "{"@ + name + "}"@
}

fn matches_at(t: &Vec<char>, i: usize, p: &Vec<char>) -> (r: bool)
    requires
        i <= t@.len(),
    ensures
        r == (i + p@.len() <= t@.len() && t@.subrange(i as int, i + p@.len()) == p@),
{
    if p.len() > t.len() - i {
        return false;
    }
    let mut k: usize = 0;
    let tl = t.len();
    while k < p.len()
        invariant
            tl == t@.len(),
            i + p@.len() <= t@.len(),
            0 <= k <= p@.len(),
            forall|j: int| 0 <= j < k ==> t@[i + j] == p@[j],
        decreases p.len() - k,
    {
        assert(i + k < tl);
        if t[i + k] != p[k] {
            assert(t@.subrange(i as int, i + p@.len())[k as int] != p@[k as int]);
            return false;
        }
        k += 1;
    }
    assert(t@.subrange(i as int, i + p@.len()) =~= p@);
    true
}

/// Replaces every `{name}` placeholder of `template` with `value`.
pub fn fill(template: &str, name: &str, value: &str) -> (r: String)
    ensures
        r@ == replace_all(template@, placeholder(name@), value@),
{
    let mut pat: Vec<char> = Vec::new();
    pat.push('{');
    let nv = chars_of(name);
    let mut j: usize = 0;
    while j < nv.len()
        invariant
            0 <= j <= nv@.len(),
            pat@ == seq!['{'] + nv@.take(j as int),
        decreases nv.len() - j,
    {
        pat.push(nv[j]);
        proof {
            assert(pat@ =~= seq!['{'] + nv@.take(j + 1));
        }
        j += 1;
    }
    pat.push('}');
    proof {
        reveal_strlit("{");
        reveal_strlit("}");
        assert(nv@.take(nv@.len() as int) =~= nv@);
        assert(pat@ =~= placeholder(name@));
    }
    let t = chars_of(template);
    let n = t.len();
    let m = pat.len();
    let mut out = String::new();
    let mut i: usize = 0;
    proof {
        assert(t@.subrange(0, n as int) =~= t@);
        assert(out@ + replace_all(t@, pat@, value@) =~= replace_all(t@, pat@, value@));
    }
    while i < n
        invariant
            t@ == template@,
            n == t@.len(),
            m == pat@.len(),
            m >= 2,
            0 <= i <= n,
            out@ + replace_all(t@.subrange(i as int, n as int), pat@, value@) == replace_all(
                t@,
                pat@,
                value@,
            ),
        decreases n - i,
    {
        let ghost rest = t@.subrange(i as int, n as int);
        let ghost prev = out@;
        if matches_at(&t, i, &pat) {
            out.append(value);
            proof {
                assert(rest.subrange(0, m as int) =~= t@.subrange(i as int, i + m));
                assert(rest.subrange(m as int, rest.len() as int) =~= t@.subrange(i + m, n as int));
                assert(prev + replace_all(rest, pat@, value@) =~= out@ + replace_all(
                    t@.subrange(i + m, n as int),
                    pat@,
                    value@,
                ));
            }
            i += m;
        } else {
            push_char(&mut out, t[i]);
            proof {
                if rest.len() >= m {
                    assert(rest.subrange(0, m as int) =~= t@.subrange(i as int, i + m));
                }
                assert(rest.drop_first() =~= t@.subrange(i + 1, n as int));
                assert(prev + replace_all(rest, pat@, value@) =~= out@ + replace_all(
                    t@.subrange(i + 1, n as int),
                    pat@,
                    value@,
                ));
            }
            i += 1;
        }
    }
    proof {
        assert(t@.subrange(n as int, n as int) =~= Seq::<char>::empty());
        assert(out@ + Seq::<char>::empty() =~= out@);
    }
    out
}

/// A text without the placeholder is left as it is.
pub proof fn lemma_fill_without_placeholder(t: Seq<char>, pat: Seq<char>, val: Seq<char>)
    requires
        pat.len() > 0,
        forall|i: int| 0 <= i <= t.len() - pat.len() ==> #[trigger] t.subrange(i, i + pat.len()) != pat,
    ensures
        replace_all(t, pat, val) == t,
    decreases t.len(),
{
    if t.len() >= pat.len() {
        assert(t.subrange(0int, 0int + pat.len()) != pat);
        let d = t.drop_first();
        assert forall|i: int| 0 <= i <= d.len() - pat.len() implies #[trigger] d.subrange(i, i + pat.len())
            != pat by {
            assert(d.subrange(i, i + pat.len()) =~= t.subrange(i + 1, i + 1 + pat.len()));
        }
        lemma_fill_without_placeholder(d, pat, val);
        assert(seq![t[0]] + d =~= t);
    }
}

} // verus!


verus! {

proof fn lemma_replace_skips(a: Seq<char>, rest: Seq<char>, pat: Seq<char>, val: Seq<char>)
    requires
        pat.len() > 0,
        forall|i: int| 0 <= i < a.len() ==> #[trigger] a[i] != pat[0],
    ensures
        replace_all(a + rest, pat, val) == a + replace_all(rest, pat, val),
    decreases a.len(),
{
    let t = a + rest;
    if a.len() > 0 {
        if t.len() >= pat.len() {
            assert(t.subrange(0, pat.len() as int)[0] == a[0]);
            assert(t.drop_first() =~= a.drop_first() + rest);
            lemma_replace_skips(a.drop_first(), rest, pat, val);
            assert(seq![t[0]] + (a.drop_first() + replace_all(rest, pat, val)) =~= a + replace_all(
                rest,
                pat,
                val,
            ));
        } else {
            lemma_replace_short(rest, pat, val);
        }
    } else {
        assert(t =~= rest);
        assert(a + replace_all(rest, pat, val) =~= replace_all(rest, pat, val));
    }
}

proof fn lemma_replace_short(t: Seq<char>, pat: Seq<char>, val: Seq<char>)
    requires
        t.len() < pat.len(),
    ensures
        replace_all(t, pat, val) == t,
{
}

proof fn lemma_replace_at_start(rest: Seq<char>, pat: Seq<char>, val: Seq<char>)
    requires
        pat.len() > 0,
    ensures
        replace_all(pat + rest, pat, val) == val + replace_all(rest, pat, val),
{
    let t = pat + rest;
    assert(t.subrange(0, pat.len() as int) =~= pat);
    assert(t.subrange(pat.len() as int, t.len() as int) =~= rest);
}

/// `{version}` stands exactly once in the update announcement, so filling it
/// puts the version in that one place and keeps the rest of the text.
pub proof fn lemma_update_body_fill(language: Seq<char>, version: Seq<char>)
    ensures
        replace_all(strings_spec(language).update_body, placeholder("version"@), version) == (if language
            == "en"@ {
            "Version "@ + version + " is available. Update and restart?"@
        } else {
            "A versão "@ + version + " já está disponível. Atualizar e reiniciar?"@
        }),
{
    reveal_strlit("{");
    reveal_strlit("}");
    reveal_strlit("version");
    reveal_strlit("{version}");
    let pat = placeholder("version"@);
    assert(pat =~= "{version}"@);
    let (head, tail, body) = if language == "en"@ {
        reveal_strlit("Version ");
        reveal_strlit(" is available. Update and restart?");
        reveal_strlit("Version {version} is available. Update and restart?");
        (
            "Version "@,
            " is available. Update and restart?"@,
            "Version {version} is available. Update and restart?"@,
        )
    } else {
        reveal_strlit("A versão ");
        reveal_strlit(" já está disponível. Atualizar e reiniciar?");
        reveal_strlit("A versão {version} já está disponível. Atualizar e reiniciar?");
        (
            "A versão "@,
            " já está disponível. Atualizar e reiniciar?"@,
            "A versão {version} já está disponível. Atualizar e reiniciar?"@,
        )
    };
    assert(strings_spec(language).update_body == body);
    assert(body =~= head + (pat + tail));
    assert forall|i: int| 0 <= i < head.len() implies #[trigger] head[i] != pat[0] by {}
    assert forall|i: int| 0 <= i < tail.len() implies #[trigger] tail[i] != pat[0] by {}
    lemma_replace_skips(head, pat + tail, pat, version);
    lemma_replace_at_start(tail, pat, version);
    lemma_replace_skips(tail, Seq::<char>::empty(), pat, version);
    lemma_replace_short(Seq::<char>::empty(), pat, version);
    assert(tail + Seq::<char>::empty() =~= tail);
    assert(head + (version + tail) =~= head + version + tail);
}

} // verus!

verus! {

/// Whether `p` stands somewhere in `t`.
pub open spec fn occurs(t: Seq<char>, p: Seq<char>) -> bool {
    exists|i: int| 0 <= i && i + p.len() <= t.len() && #[trigger] t.subrange(i, i + p.len()) == p
}

proof fn lemma_replace_skips_windows(a: Seq<char>, r: Seq<char>, p: Seq<char>, v: Seq<char>)
    requires
        p.len() > 0,
        forall|i: int|
            0 <= i < a.len() && i + p.len() <= a.len() + r.len() ==> #[trigger] (a + r).subrange(
                i,
                i + p.len(),
            ) != p,
    ensures
        replace_all(a + r, p, v) == a + replace_all(r, p, v),
    decreases a.len(),
{
    let t = a + r;
    if a.len() == 0 {
        assert(t =~= r);
        assert(a + replace_all(r, p, v) =~= replace_all(r, p, v));
    } else if t.len() < p.len() {
        lemma_replace_short(t, p, v);
        lemma_replace_short(r, p, v);
    } else {
        assert((a + r).subrange(0int, 0int + p.len()) != p);
        let a2 = a.drop_first();
        assert(t.drop_first() =~= a2 + r);
        assert forall|i: int|
            0 <= i < a2.len() && i + p.len() <= a2.len() + r.len() implies #[trigger] (a2 + r).subrange(
            i,
            i + p.len(),
        ) != p by {
            assert((a2 + r).subrange(i, i + p.len()) =~= (a + r).subrange(i + 1, i + 1 + p.len()));
        }
        lemma_replace_skips_windows(a2, r, p, v);
        assert(seq![t[0]] + (a2 + replace_all(r, p, v)) =~= a + replace_all(r, p, v));
    }
}

/// A text without the placeholder `{name}` is left as it is by `fill`.
pub proof fn lemma_fill_absent(t: Seq<char>, name: Seq<char>, value: Seq<char>)
    requires
        !occurs(t, placeholder(name)),
    ensures
        replace_all(t, placeholder(name), value) == t,
{
    reveal_strlit("{");
    reveal_strlit("}");
    let p = placeholder(name);
    assert forall|i: int| 0 <= i <= t.len() - p.len() implies #[trigger] t.subrange(i, i + p.len()) != p by {
        if t.subrange(i, i + p.len()) == p {
            assert(occurs(t, p));
        }
    }
    lemma_fill_without_placeholder(t, p, value);
}

/// Filling a template that holds the placeholder `{name}` once, where `name`
/// has no braces, puts the value in that one place and keeps the rest.
pub proof fn lemma_fill_single_placeholder(a: Seq<char>, name: Seq<char>, b: Seq<char>, value: Seq<char>)
    requires
        !name.contains('{'),
        !name.contains('}'),
        !occurs(a, placeholder(name)),
        !occurs(b, placeholder(name)),
    ensures
        replace_all(a + placeholder(name) + b, placeholder(name), value) == a + value + b,
{
    reveal_strlit("{");
    reveal_strlit("}");
    let p = placeholder(name);
    let t = a + (p + b);
    assert(a + p + b =~= t);
    assert(p[0] == '{');
    assert(p[p.len() - 1] == '}');
    assert forall|i: int|
        0 <= i < a.len() && i + p.len() <= a.len() + (p + b).len() implies #[trigger] (a + (p
        + b)).subrange(i, i + p.len()) != p by {
        if t.subrange(i, i + p.len()) == p {
            if i + p.len() <= a.len() {
                assert(a.subrange(i, i + p.len()) =~= t.subrange(i, i + p.len()));
                assert(occurs(a, p));
            } else {
                let k = a.len() - i;
                assert(t[a.len() as int] == p[0]);
                assert(t.subrange(i, i + p.len())[k] == t[a.len() as int]);
                if k < p.len() - 1 {
                    assert(p[k] == name[k - 1]);
                    assert(name.contains(name[k - 1]));
                }
            }
        }
    }
    lemma_replace_skips_windows(a, p + b, p, value);
    lemma_replace_at_start(b, p, value);
    lemma_fill_absent(b, name, value);
    assert(a + (value + b) =~= a + value + b);
}

} // verus!
