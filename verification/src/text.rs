//! Text normalization: Turkish letter folding and hyphen-joined slugs.

use vstd::prelude::*;

verus! {

/// The ASCII letter that stands for a Turkish letter; every other character
/// stands for itself.
pub open spec fn fold_tr_char(c: char) -> char {
    match c {
        'ç' => 'c',
        'Ç' => 'C',
        'ğ' => 'g',
        'Ğ' => 'G',
        'ş' => 's',
        'Ş' => 'S',
        'ü' => 'u',
        'Ü' => 'U',
        'ö' => 'o',
        'Ö' => 'O',
        'ı' => 'i',
        'İ' => 'I',
        _ => c,
    }
}

/// A text with every Turkish letter folded, position by position.
pub open spec fn fold_tr(s: Seq<char>) -> Seq<char> {
    Seq::new(s.len(), |i: int| fold_tr_char(s[i]))
}

/// Folds one character.
pub fn fold_char(c: char) -> (r: char)
    ensures
        r == fold_tr_char(c),
{
    match c {
        'ç' => 'c',
        'Ç' => 'C',
        'ğ' => 'g',
        'Ğ' => 'G',
        'ş' => 's',
        'Ş' => 'S',
        'ü' => 'u',
        'Ü' => 'U',
        'ö' => 'o',
        'Ö' => 'O',
        'ı' => 'i',
        'İ' => 'I',
        _ => c,
    }
}

/// Replaces the Turkish letters of `s` by their ASCII counterparts and keeps
/// every other character.
pub fn convert_tr_chars_to_en(s: &str) -> (r: String)
    ensures
        r@ == fold_tr(s@),
{
    let mut out = String::new();
    for c in it: s.chars()
        invariant
            it.seq() == s@,
            out@ == fold_tr(s@.take(it.index())),
    {
        let f = fold_char(c);
        out.push(f);
        assert(s@.take(it.index() + 1) == s@.take(it.index()).push(s@[it.index()]));
    }
    assert(s@.take(s@.len() as int) == s@);
    out
}

/// The result of `str::to_lowercase` on a text: its lowercase form as Unicode
/// defines it for whole strings.
pub uninterp spec fn lowercase_of(s: Seq<char>) -> Seq<char>;

/// Calls `str::to_lowercase`, which returns the lowercase equivalent of the
/// string slice as a new `String`; the mapping depends on the text alone.
#[verifier::external_body]
pub(crate) fn lowercase(s: &str) -> (r: String)
    ensures
        r@ == lowercase_of(s@),
{
    s.to_lowercase()
}

/// The characters with the Unicode property `White_Space`.
pub open spec fn is_white_space(c: char) -> bool {
    let n = c as u32;
    ||| 0x09 <= n <= 0x0D
    ||| n == 0x20
    ||| n == 0x85
    ||| n == 0xA0
    ||| n == 0x1680
    ||| 0x2000 <= n <= 0x200A
    ||| n == 0x2028
    ||| n == 0x2029
    ||| n == 0x202F
    ||| n == 0x205F
    ||| n == 0x3000
}

/// Tells whether `c` separates words.
pub fn is_space(c: char) -> (b: bool)
    ensures
        b == is_white_space(c),
{
    let n: u32 = c as u32;
    (0x09 <= n && n <= 0x0D) || n == 0x20 || n == 0x85 || n == 0xA0 || n == 0x1680 || (0x2000 <= n
        && n <= 0x200A) || n == 0x2028 || n == 0x2029 || n == 0x202F || n == 0x205F || n == 0x3000
}

/// A text cut at every white space character: `n` such characters give
/// `n + 1` pieces, some of which may be empty.
pub open spec fn pieces(s: Seq<char>) -> Seq<Seq<char>>
    decreases s.len(),
{
    if s.len() == 0 {
        seq![Seq::empty()]
    } else if is_white_space(s.last()) {
        pieces(s.drop_last()).push(Seq::empty())
    } else {
        let p = pieces(s.drop_last());
        p.drop_last().push(p.last().push(s.last()))
    }
}

/// The non-empty members of `ps`, in order.
pub open spec fn non_empty(ps: Seq<Seq<char>>) -> Seq<Seq<char>>
    decreases ps.len(),
{
    if ps.len() == 0 {
        ps
    } else if ps.last().len() > 0 {
        non_empty(ps.drop_last()).push(ps.last())
    } else {
        non_empty(ps.drop_last())
    }
}

/// The words of a text: its maximal runs of characters that are not white
/// space.
pub open spec fn words(s: Seq<char>) -> Seq<Seq<char>> {
    non_empty(pieces(s))
}

/// The members of `ws` written one after another with `sep` between
/// neighbours.
pub open spec fn join(ws: Seq<Seq<char>>, sep: char) -> Seq<char>
    decreases ws.len(),
{
    if ws.len() == 0 {
        Seq::empty()
    } else if ws.len() == 1 {
        ws[0]
    } else {
        join(ws.drop_last(), sep).push(sep) + ws.last()
    }
}

/// The words of a text joined by single hyphens.
pub open spec fn kebab_of(s: Seq<char>) -> Seq<char> {
    join(words(s), '-')
}

/// The slug of a text: its Turkish letters folded to ASCII, capital forms
/// too, then the lowercase form of that, then its words joined by single
/// hyphens. The letters are folded first, so that the capital dotted I
/// becomes a plain `I` before it is lowered.
pub open spec fn slug_of(s: Seq<char>) -> Seq<char> {
    kebab_of(lowercase_of(fold_tr(s)))
}

/// A text has at least one piece, and its last piece is empty unless the
/// text ends in a character that is no white space.
proof fn lemma_pieces_shape(s: Seq<char>)
    ensures
        pieces(s).len() >= 1,
        pieces(s).last().len() > 0 <==> s.len() > 0 && !is_white_space(s.last()),
    decreases s.len(),
{
    if s.len() > 0 {
        lemma_pieces_shape(s.drop_last());
    }
}

/// What is left of the pieces is not empty.
proof fn lemma_non_empty_members(ps: Seq<Seq<char>>)
    ensures
        forall|i: int| 0 <= i < non_empty(ps).len() ==> (#[trigger] non_empty(ps)[i]).len() > 0,
    decreases ps.len(),
{
    if ps.len() > 0 {
        lemma_non_empty_members(ps.drop_last());
        assert forall|i: int| 0 <= i < non_empty(ps).len() implies (#[trigger] non_empty(
            ps,
        )[i]).len() > 0 by {
            if i < non_empty(ps.drop_last()).len() {
                assert(non_empty(ps)[i] == non_empty(ps.drop_last())[i]);
            }
        }
    }
}

/// A text without characters has no words, and its hyphen-joined form is
/// empty.
pub proof fn lemma_kebab_of_nothing()
    ensures
        words(Seq::empty()) == Seq::<Seq<char>>::empty(),
        kebab_of(Seq::empty()) == Seq::<char>::empty(),
{
    let p = pieces(Seq::empty());
    assert(p == seq![Seq::<char>::empty()]);
    assert(p.drop_last() == Seq::<Seq<char>>::empty());
    assert(non_empty(p.drop_last()) == Seq::<Seq<char>>::empty());
}

/// Words that are not empty join to an empty text only if there are none.
proof fn lemma_join_empty(ws: Seq<Seq<char>>, sep: char)
    requires
        forall|i: int| 0 <= i < ws.len() ==> (#[trigger] ws[i]).len() > 0,
    ensures
        join(ws, sep).len() == 0 <==> ws.len() == 0,
    decreases ws.len(),
{
    if ws.len() > 1 {
        lemma_join_empty(ws.drop_last(), sep);
    }
}

/// A text has no words exactly when its hyphen-joined form is empty.
pub proof fn lemma_kebab_empty(s: Seq<char>)
    ensures
        kebab_of(s).len() == 0 <==> words(s).len() == 0,
{
    lemma_non_empty_members(pieces(s));
    lemma_join_empty(words(s), '-');
}

/// How the hyphen-joined form grows when one character is appended: white
/// space adds nothing, a character after a word character extends the last
/// word, and any other character opens a new word, after a hyphen if a word
/// came before.
pub proof fn lemma_kebab_step(s: Seq<char>, c: char)
    ensures
        kebab_of(s.push(c)) == if is_white_space(c) {
            kebab_of(s)
        } else if s.len() > 0 && !is_white_space(s.last()) {
            kebab_of(s).push(c)
        } else if kebab_of(s).len() == 0 {
            seq![c]
        } else {
            kebab_of(s).push('-').push(c)
        },
{
    let t = s.push(c);
    assert(t.drop_last() == s);
    assert(t.last() == c);
    let p = pieces(s);
    lemma_pieces_shape(s);
    lemma_kebab_empty(s);
    if is_white_space(c) {
        assert(pieces(t) == p.push(Seq::empty()));
        assert(p.push(Seq::<char>::empty()).drop_last() == p);
    } else {
        let last = p.last().push(c);
        let q = p.drop_last().push(last);
        assert(pieces(t) == q);
        assert(q.drop_last() == p.drop_last());
        assert(q.last() == last);
        assert(words(t) == non_empty(p.drop_last()).push(last));
        let w = words(t);
        assert(w.drop_last() == non_empty(p.drop_last()));
        assert(w.last() == last);
        if s.len() > 0 && !is_white_space(s.last()) {
            assert(words(s) == non_empty(p.drop_last()).push(p.last()));
            let v = words(s);
            assert(v.drop_last() == w.drop_last());
            assert(v.last() == p.last());
            if v.len() == 1 {
                assert(join(w, '-') == join(v, '-').push(c));
            } else {
                assert(join(w, '-') == join(w.drop_last(), '-').push('-') + last);
                assert(join(v, '-') == join(v.drop_last(), '-').push('-') + p.last());
                assert(join(w, '-') == join(v, '-').push(c));
            }
        } else {
            assert(p.last().len() == 0);
            assert(last == seq![c]);
            assert(words(s) == non_empty(p.drop_last()));
            if words(s).len() == 0 {
                assert(join(w, '-') == seq![c]);
            } else {
                assert(join(w, '-') == join(words(s), '-').push('-') + seq![c]);
                assert(join(words(s), '-').push('-') + seq![c] == join(words(s), '-').push(
                    '-',
                ).push(c));
            }
        }
    }
}

/// Repeated white space collapses: a second white space character next to
/// one that is already there does not change the hyphen-joined form.
pub proof fn lemma_white_space_collapses(a: Seq<char>, w1: char, w2: char, b: Seq<char>)
    requires
        is_white_space(w1),
        is_white_space(w2),
    ensures
        kebab_of(a.push(w1).push(w2) + b) == kebab_of(a.push(w1) + b),
    decreases b.len(),
{
    let once = a.push(w1);
    let twice = once.push(w2);
    if b.len() == 0 {
        assert(twice + b == twice);
        assert(once + b == once);
        lemma_kebab_step(once, w2);
    } else {
        let init = b.drop_last();
        let c = b.last();
        lemma_white_space_collapses(a, w1, w2, init);
        assert(twice + b == (twice + init).push(c));
        assert(once + b == (once + init).push(c));
        lemma_kebab_step(twice + init, c);
        lemma_kebab_step(once + init, c);
        if init.len() == 0 {
            assert(twice + init == twice);
            assert(once + init == once);
        } else {
            assert((twice + init).last() == init.last());
            assert((once + init).last() == init.last());
        }
    }
}

/// The hyphen-joined form of a text holds no white space.
pub proof fn lemma_kebab_has_no_white_space(s: Seq<char>)
    ensures
        forall|i: int| 0 <= i < kebab_of(s).len() ==> !is_white_space(#[trigger] kebab_of(s)[i]),
    decreases s.len(),
{
    if s.len() == 0 {
        assert(s == Seq::<char>::empty());
        lemma_kebab_of_nothing();
    } else {
        let init = s.drop_last();
        assert(s == init.push(s.last()));
        lemma_kebab_has_no_white_space(init);
        lemma_kebab_step(init, s.last());
    }
}

/// Folding a Turkish letter never makes or removes white space, and leaves
/// the hyphen alone.
pub proof fn lemma_fold_keeps_classes(c: char)
    ensures
        is_white_space(fold_tr_char(c)) == is_white_space(c),
        fold_tr_char('-') == '-',
{
}

/// Folding and joining commute: folding the hyphen-joined form of a text
/// gives the hyphen-joined form of the folded text.
pub proof fn lemma_fold_commutes_with_kebab(s: Seq<char>)
    ensures
        fold_tr(kebab_of(s)) == kebab_of(fold_tr(s)),
    decreases s.len(),
{
    if s.len() == 0 {
        assert(s == Seq::<char>::empty());
        assert(fold_tr(s) == Seq::<char>::empty());
        lemma_kebab_of_nothing();
        assert(fold_tr(Seq::empty()) == Seq::<char>::empty());
    } else {
        let init = s.drop_last();
        let c = s.last();
        assert(s == init.push(c));
        lemma_fold_commutes_with_kebab(init);
        lemma_kebab_step(init, c);
        assert(fold_tr(s) == fold_tr(init).push(fold_tr_char(c)));
        lemma_kebab_step(fold_tr(init), fold_tr_char(c));
        lemma_fold_keeps_classes(c);
        if init.len() > 0 {
            lemma_fold_keeps_classes(init.last());
            assert(fold_tr(init).last() == fold_tr_char(init.last()));
        }
        let k = kebab_of(init);
        assert(fold_tr(k).len() == k.len());
        assert(fold_tr(k.push(c)) == fold_tr(k).push(fold_tr_char(c)));
        assert(fold_tr(seq![c]) == seq![fold_tr_char(c)]);
        assert(fold_tr(k.push('-').push(c)) == fold_tr(k).push('-').push(fold_tr_char(c)));
    }
}

/// A slug holds no white space.
pub proof fn lemma_slug_has_no_white_space(s: Seq<char>)
    ensures
        forall|i: int| 0 <= i < slug_of(s).len() ==> !is_white_space(#[trigger] slug_of(s)[i]),
{
    lemma_kebab_has_no_white_space(lowercase_of(fold_tr(s)));
}

/// A folded text holds none of the Turkish letters that folding replaces:
/// folding it again changes nothing.
pub proof fn lemma_fold_twice(s: Seq<char>)
    ensures
        fold_tr(fold_tr(s)) == fold_tr(s),
{
    assert(fold_tr(fold_tr(s)) =~= fold_tr(s));
}

/// Joins the words of `lowered` by single hyphens: leading and trailing
/// white space goes, and each run of white space between two words becomes
/// one hyphen.
pub fn join_words(lowered: &str) -> (r: String)
    ensures
        r@ == kebab_of(lowered@),
{
    let mut out = String::new();
    let mut in_word = false;
    let mut any = false;
    proof {
        lemma_kebab_of_nothing();
        assert(lowered@.take(0) == Seq::<char>::empty());
    }
    for c in it: lowered.chars()
        invariant
            it.seq() == lowered@,
            out@ == kebab_of(lowered@.take(it.index())),
            any <==> out@.len() > 0,
            in_word <==> it.index() > 0 && !is_white_space(lowered@[it.index() - 1]),
    {
        proof {
            let prefix = lowered@.take(it.index());
            assert(lowered@.take(it.index() + 1) == prefix.push(c));
            if it.index() > 0 {
                assert(prefix.last() == lowered@[it.index() - 1]);
            }
            lemma_kebab_step(prefix, c);
        }
        if is_space(c) {
            in_word = false;
        } else {
            if !in_word && any {
                out.push('-');
            }
            out.push(c);
            in_word = true;
            any = true;
        }
    }
    assert(lowered@.take(lowered@.len() as int) == lowered@);
    out
}

/// The lowercase form of `s` with its words joined by single hyphens.
pub fn to_kebab_case(s: &str) -> (r: String)
    ensures
        r@ == kebab_of(lowercase_of(s@)),
{
    let lowered = lowercase(s);
    join_words(lowered.as_str())
}

/// The slug of `s`: Turkish letters folded to ASCII, lowercase, words
/// joined by single hyphens.
pub fn to_lower_en_kebab_case(s: &str) -> (r: String)
    ensures
        r@ == slug_of(s@),
{
    let folded = convert_tr_chars_to_en(s);
    to_kebab_case(folded.as_str())
}

} // verus!
