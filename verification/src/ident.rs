//! SQL identifiers: quoting, and what a quoted identifier reads as.
use vstd::prelude::*;
use vstd::string::*;

verus! {

/// How one character is written between the quotes of an identifier.
pub open spec fn escaped(c: char) -> Seq<char> {
    if c == '"' {
        seq!['"', '"']
    } else {
        seq![c]
    }
}

/// `s` with every quote doubled.
pub open spec fn doubled(s: Seq<char>) -> Seq<char>
    decreases s.len(),
{
    if s.len() == 0 {
        seq![]
    } else {
        doubled(s.drop_last()) + escaped(s.last())
    }
}

/// `s` as a quoted identifier.
pub open spec fn quoted(s: Seq<char>) -> Seq<char> {
    seq!['"'] + doubled(s) + seq!['"']
}

/// Reads the rest of a quoted identifier, behind its opening quote: a doubled
/// quote stands for one quote, and a single quote ends it. Gives the
/// identifier and the text behind it.
pub open spec fn read_quoted_rest(text: Seq<char>) -> Option<(Seq<char>, Seq<char>)>
    decreases text.len(),
{
    if text.len() == 0 {
        None
    } else if text[0] != '"' {
        match read_quoted_rest(text.skip(1)) {
            Some((name, rest)) => Some((seq![text[0]] + name, rest)),
            None => None,
        }
    } else if text.len() > 1 && text[1] == '"' {
        match read_quoted_rest(text.skip(2)) {
            Some((name, rest)) => Some((seq!['"'] + name, rest)),
            None => None,
        }
    } else {
        Some((seq![], text.skip(1)))
    }
}

/// Reads a quoted identifier at the start of `text`.
pub open spec fn read_quoted(text: Seq<char>) -> Option<(Seq<char>, Seq<char>)> {
    if text.len() > 0 && text[0] == '"' {
        read_quoted_rest(text.skip(1))
    } else {
        None
    }
}

/// Quotes an identifier: puts it between quotes and doubles the quotes in it.
pub fn quote_ident(identifier: &str) -> (sql: String)
    ensures
        sql@ == quoted(identifier@),
{
    let mut sql = String::new();
    sql.push('"');
    for c in it: identifier.chars()
        invariant
            it.seq() == identifier@,
            sql@ == seq!['"'] + doubled(identifier@.take(it.index())),
    {
        let ghost next = identifier@.take(it.index() + 1);
        let ghost before = sql@;
        assert(next.drop_last() =~= identifier@.take(it.index()));
        if c == '"' {
            sql.push('"');
        }
        sql.push(c);
        assert(sql@ =~= before + escaped(c));
        assert(sql@ =~= seq!['"'] + doubled(next));
    }
    assert(identifier@.take(identifier@.len() as int) =~= identifier@);
    sql.push('"');
    assert(sql@ =~= quoted(identifier@));
    sql
}

proof fn lemma_doubled_front(s: Seq<char>)
    requires
        s.len() > 0,
    ensures
        doubled(s) == escaped(s[0]) + doubled(s.skip(1)),
    decreases s.len(),
{
    if s.len() == 1 {
        assert(s.drop_last() =~= Seq::empty());
        assert(s.skip(1) =~= Seq::empty());
        assert(doubled(s) =~= escaped(s[0]) + doubled(s.skip(1)));
    } else {
        lemma_doubled_front(s.drop_last());
        assert(s.drop_last().skip(1) =~= s.skip(1).drop_last());
        assert(doubled(s) =~= escaped(s[0]) + doubled(s.skip(1)));
    }
}

proof fn lemma_read_doubled(s: Seq<char>, rest: Seq<char>)
    requires
        rest.len() == 0 || rest[0] != '"',
    ensures
        read_quoted_rest(doubled(s) + seq!['"'] + rest) == Some((s, rest)),
    decreases s.len(),
{
    let text = doubled(s) + seq!['"'] + rest;
    if s.len() == 0 {
        assert(text.skip(1) =~= rest);
        assert(s =~= Seq::empty());
    } else {
        lemma_doubled_front(s);
        lemma_read_doubled(s.skip(1), rest);
        let tail = doubled(s.skip(1)) + seq!['"'] + rest;
        assert(text =~= escaped(s[0]) + tail);
        assert(seq![s[0]] + s.skip(1) =~= s);
        if s[0] == '"' {
            assert(text.skip(2) =~= tail);
        } else {
            assert(text.skip(1) =~= tail);
        }
    }
}

/// A quoted identifier reads back as the identifier, whatever it holds, and
/// the text behind it stays as it is: no name can end its quotes early.
pub proof fn law_quoted_reads_back(identifier: Seq<char>, rest: Seq<char>)
    requires
        rest.len() == 0 || rest[0] != '"',
    ensures
        read_quoted(quoted(identifier) + rest) == Some((identifier, rest)),
{
    lemma_read_doubled(identifier, rest);
    let text = quoted(identifier) + rest;
    assert(text.skip(1) =~= doubled(identifier) + seq!['"'] + rest);
}

/// Two identifiers are quoted alike only where they are the same.
pub proof fn law_quoted_injective(a: Seq<char>, b: Seq<char>)
    requires
        quoted(a) == quoted(b),
    ensures
        a == b,
{
    law_quoted_reads_back(a, Seq::empty());
    law_quoted_reads_back(b, Seq::empty());
}

/// A quoted identifier stands between quotes, and between them each character
/// stands as it is, in order; only a quote stands twice.
pub proof fn law_quoted_char_by_char(identifier: Seq<char>, c: char)
    ensures
        quoted(Seq::<char>::empty()) == seq!['"', '"'],
        quoted(identifier).first() == '"',
        quoted(identifier).last() == '"',
        c != '"' ==> quoted(identifier.push(c)) == quoted(identifier).drop_last().push(c).push('"'),
        quoted(identifier.push('"')) == quoted(identifier).push('"').push('"'),
{
    assert(identifier.push(c).drop_last() =~= identifier);
    assert(identifier.push('"').drop_last() =~= identifier);
    assert(quoted(Seq::<char>::empty()) =~= seq!['"', '"']);
    if c != '"' {
        assert(quoted(identifier.push(c)) =~= quoted(identifier).drop_last().push(c).push('"'));
    }
    assert(quoted(identifier.push('"')) =~= quoted(identifier).push('"').push('"'));
}

}
