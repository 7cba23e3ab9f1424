//! Tag search: the query language (`namespace:value` words, `-` to negate)
//! and the SQL it becomes.
use vstd::prelude::*;

use crate::error::{ApiError, STATUS_BAD_REQUEST};
use crate::text::{
    chars_of,
    find_char,
    find_char_in,
    is_white_space,
    lemma_find_char_first,
    lemma_find_char_found,
    lemma_words_append,
    lemma_words_single,
    lemma_words_shape,
    split_whitespace,
    words,
};
use crate::tracks::{limit_of, offset_of, page_limit, page_offset, SqlQuery};

verus! {

broadcast use vstd::string::group_string_axioms;

/// The query string of a search.
pub struct SearchQuery {
    pub q: String,
    pub limit: Option<i64>,
    pub offset: Option<i64>,
}

/// A `namespace:value` pair, optionally negated.
pub struct Token {
    pub negated: bool,
    pub namespace: String,
    pub value: String,
}

pub struct TokenView {
    pub negated: bool,
    pub namespace: Seq<char>,
    pub value: Seq<char>,
}

impl View for Token {
    type V = TokenView;

    open spec fn view(&self) -> TokenView {
        TokenView { negated: self.negated, namespace: self.namespace@, value: self.value@ }
    }
}

/// One word of a query read as a token, or the message that refuses it.
pub open spec fn token_of(raw: Seq<char>) -> Result<TokenView, Seq<char>> {
    let negated = raw.len() > 0 && raw[0] == '-';
    let rest = if negated {
        raw.drop_first()
    } else {
        raw
    };
    match find_char(rest, ':') {
        None => Err("token '"@ + raw + "' missing ':'"@),
        Some(k) => if rest.skip(k + 1).len() == 0 {
            Err("token '"@ + raw + "' has empty value"@)
        } else {
            Ok(TokenView { negated, namespace: rest.take(k), value: rest.skip(k + 1) })
        },
    }
}

/// The tokens of a list of words, or the message for the first word refused.
pub open spec fn tokens_of(ws: Seq<Seq<char>>) -> Result<Seq<TokenView>, Seq<char>>
    decreases ws.len(),
{
    if ws.len() == 0 {
        Ok(Seq::empty())
    } else {
        match tokens_of(ws.drop_last()) {
            Err(m) => Err(m),
            Ok(ts) => match token_of(ws.last()) {
                Err(m) => Err(m),
                Ok(t) => Ok(ts.push(t)),
            },
        }
    }
}

proof fn lemma_tokens_error_extends(ws: Seq<Seq<char>>, k: int)
    requires
        0 <= k <= ws.len(),
        tokens_of(ws.take(k)) is Err,
    ensures
        tokens_of(ws) == tokens_of(ws.take(k)),
    decreases ws.len() - k,
{
    if k == ws.len() {
        assert(ws.take(k) =~= ws);
    } else {
        let t = ws.drop_last();
        assert(t.take(k) =~= ws.take(k));
        lemma_tokens_error_extends(t, k);
    }
}

fn token_from_word(raw: &str) -> (r: Result<Token, ApiError>)
    ensures
        match token_of(raw@) {
            Ok(t) => r matches Ok(tok) && tok@ == t,
            Err(m) => r matches Err(e) && e.status == STATUS_BAD_REQUEST && e.message@ == m,
        },
{
    let cs = chars_of(raw);
    let negated = cs.len() > 0 && cs[0] == '-';
    let n = cs.len();
    let rest = if negated {
        raw.substring_char(1, n)
    } else {
        raw.substring_char(0, n)
    };
    proof {
        assert(raw@.subrange(1, n as int) =~= raw@.drop_first());
        assert(raw@.subrange(0, n as int) =~= raw@);
    }
    let rc = chars_of(rest);
    match find_char_in(&rc, ':') {
        None => {
            let mut m = String::from_str("token '");
            m.append(raw);
            m.append("' missing ':'");
            Err(ApiError::bad_request(m))
        },
        Some(k) => {
            let rn = rc.len();
            proof {
                assert(rest@.subrange(0, k as int) =~= rest@.take(k as int));
                assert(rest@.subrange(k + 1, rn as int) =~= rest@.skip(k + 1));
            }
            if k + 1 == rn {
                let mut m = String::from_str("token '");
                m.append(raw);
                m.append("' has empty value");
                Err(ApiError::bad_request(m))
            } else {
                Ok(
                    Token {
                        negated,
                        namespace: String::from_str(rest.substring_char(0, k)),
                        value: String::from_str(rest.substring_char(k + 1, rn)),
                    },
                )
            }
        },
    }
}

/// Parses a search query: each white-space separated word is
/// `namespace:value` (split at the first `:`), negated by a leading `-`;
/// the first word without a `:` or with an empty value is refused with 400.
pub fn parse_query(q: &str) -> (r: Result<Vec<Token>, ApiError>)
    ensures
        match tokens_of(words(q@)) {
            Ok(ts) => r matches Ok(v) && v@.len() == ts.len() && forall|i: int|
                0 <= i < ts.len() ==> (#[trigger] v@[i])@ == ts[i],
            Err(m) => r matches Err(e) && e.status == STATUS_BAD_REQUEST && e.message@ == m,
        },
{
    let ws = split_whitespace(q);
    let ghost wv = words(q@);
    let mut out: Vec<Token> = Vec::new();
    let mut i: usize = 0;
    while i < ws.len()
        invariant
            wv == words(q@),
            ws@.len() == wv.len(),
            forall|k: int| 0 <= k < ws@.len() ==> (#[trigger] ws@[k])@ == wv[k],
            i <= ws@.len(),
            tokens_of(wv.take(i as int)) matches Ok(ts) && out@.len() == ts.len() && forall|k: int|
                0 <= k < ts.len() ==> (#[trigger] out@[k])@ == ts[k],
        decreases ws@.len() - i,
    {
        proof {
            assert(wv.take(i + 1).drop_last() =~= wv.take(i as int));
            assert(wv.take(i + 1).last() == ws@[i as int]@);
        }
        match token_from_word(ws[i]) {
            Ok(t) => {
                out.push(t);
            },
            Err(e) => {
                proof {
                    lemma_tokens_error_extends(wv, i + 1);
                }
                return Err(e);
            },
        }
        i = i + 1;
    }
    proof {
        assert(wv.take(i as int) =~= wv);
    }
    Ok(out)
}

proof fn lemma_token_shape(raw: Seq<char>)
    requires
        forall|j: int| 0 <= j < raw.len() ==> !is_white_space(#[trigger] raw[j]),
    ensures
        token_of(raw) matches Ok(t) ==> {
            &&& t.value.len() > 0
            &&& forall|j: int| 0 <= j < t.namespace.len() ==> (#[trigger] t.namespace[j]) != ':'
                && !is_white_space(t.namespace[j])
            &&& forall|j: int| 0 <= j < t.value.len() ==> !is_white_space(#[trigger] t.value[j])
        },
{
    let negated = raw.len() > 0 && raw[0] == '-';
    let rest = if negated {
        raw.drop_first()
    } else {
        raw
    };
    lemma_find_char_found(rest, ':');
    if let Some(k) = find_char(rest, ':') {
        assert forall|j: int| 0 <= j < rest.len() implies !is_white_space(#[trigger] rest[j]) by {
            if negated {
                assert(rest[j] == raw[j + 1]);
            }
        }
        let ns = rest.take(k);
        let v = rest.skip(k + 1);
        assert forall|j: int| 0 <= j < ns.len() implies (#[trigger] ns[j]) != ':'
            && !is_white_space(ns[j]) by {
            assert(ns[j] == rest[j]);
        }
        assert forall|j: int| 0 <= j < v.len() implies !is_white_space(#[trigger] v[j]) by {
            assert(v[j] == rest[j + k + 1]);
        }
    }
}

/// Every token of an accepted query has a non-empty value; neither its
/// namespace nor its value holds white space, and the namespace holds no
/// `:`. The query binds two values per token.
pub proof fn lemma_accepted_tokens(q: Seq<char>)
    ensures
        tokens_of(words(q)) matches Ok(ts) ==> {
            &&& forall|i: int| 0 <= i < ts.len() ==> (#[trigger] ts[i]).value.len() > 0
            &&& forall|i: int, j: int|
                0 <= i < ts.len() && 0 <= j < ts[i].namespace.len() ==> (#[trigger] ts[i].namespace[j])
                    != ':' && !is_white_space(ts[i].namespace[j])
            &&& forall|i: int, j: int|
                0 <= i < ts.len() && 0 <= j < ts[i].value.len() ==> !is_white_space(
                    #[trigger] ts[i].value[j],
                )
            &&& token_binds(ts).len() == 2 * ts.len()
        },
{
    lemma_words_shape(q);
    lemma_tokens_shape(words(q));
}

proof fn lemma_tokens_shape(ws: Seq<Seq<char>>)
    requires
        forall|k: int, j: int|
            0 <= k < ws.len() && 0 <= j < ws[k].len() ==> !is_white_space(#[trigger] ws[k][j]),
    ensures
        tokens_of(ws) matches Ok(ts) ==> {
            &&& ts.len() == ws.len()
            &&& forall|i: int| 0 <= i < ts.len() ==> (#[trigger] ts[i]).value.len() > 0
            &&& forall|i: int, j: int|
                0 <= i < ts.len() && 0 <= j < ts[i].namespace.len() ==> (#[trigger] ts[i].namespace[j])
                    != ':' && !is_white_space(ts[i].namespace[j])
            &&& forall|i: int, j: int|
                0 <= i < ts.len() && 0 <= j < ts[i].value.len() ==> !is_white_space(
                    #[trigger] ts[i].value[j],
                )
            &&& token_binds(ts).len() == 2 * ts.len()
        },
    decreases ws.len(),
{
    if ws.len() > 0 {
        let t = ws.drop_last();
        assert forall|k: int, j: int| 0 <= k < t.len() && 0 <= j < t[k].len() implies !is_white_space(
            #[trigger] t[k][j],
        ) by {
            assert(t[k] == ws[k]);
        }
        lemma_tokens_shape(t);
        let last = ws.last();
        assert forall|j: int| 0 <= j < last.len() implies !is_white_space(#[trigger] last[j]) by {
            assert(ws[ws.len() - 1][j] == last[j]);
        }
        lemma_token_shape(last);
        if let Ok(ts) = tokens_of(ws) {
            let prev = tokens_of(t)->Ok_0;
            assert(ts == prev.push(token_of(last)->Ok_0));
            assert(ts.drop_last() =~= prev);
        }
    }
}

/// The word that writes a token: `-` when negated, the namespace, `:`,
/// the value.
pub open spec fn token_word(t: TokenView) -> Seq<char> {
    (if t.negated {
        seq!['-']
    } else {
        Seq::empty()
    }) + t.namespace + seq![':'] + t.value
}

/// Tokens written as a query: their words separated by single spaces.
pub open spec fn query_text(ts: Seq<TokenView>) -> Seq<char>
    decreases ts.len(),
{
    if ts.len() == 0 {
        Seq::empty()
    } else if ts.len() == 1 {
        token_word(ts[0])
    } else {
        query_text(ts.drop_last()) + seq![' '] + token_word(ts.last())
    }
}

/// A token that its word reads back as: a non-empty value, no white space,
/// no `:` in the namespace, and no leading `-` on the namespace of a token
/// that is not negated.
pub open spec fn writable(t: TokenView) -> bool {
    &&& t.value.len() > 0
    &&& forall|j: int| 0 <= j < t.value.len() ==> !is_white_space(#[trigger] t.value[j])
    &&& forall|j: int|
        0 <= j < t.namespace.len() ==> (#[trigger] t.namespace[j]) != ':' && !is_white_space(
            t.namespace[j],
        )
    &&& (!t.negated && t.namespace.len() > 0) ==> t.namespace[0] != '-'
}

proof fn lemma_token_word(t: TokenView)
    requires
        writable(t),
    ensures
        token_of(token_word(t)) == Ok::<TokenView, Seq<char>>(t),
        token_word(t).len() > 0,
        forall|j: int|
            0 <= j < token_word(t).len() ==> !is_white_space(#[trigger] token_word(t)[j]),
{
    let raw = token_word(t);
    let pre: Seq<char> = if t.negated {
        seq!['-']
    } else {
        Seq::empty()
    };
    let rest = t.namespace + seq![':'] + t.value;
    assert(raw =~= pre + rest);
    assert(is_white_space('-') == false);
    assert(is_white_space(':') == false);
    if t.negated {
        assert(raw[0] == '-');
        assert(raw.drop_first() =~= rest);
    } else {
        assert(raw =~= rest);
        if t.namespace.len() > 0 {
            assert(raw[0] == t.namespace[0]);
        } else {
            assert(raw[0] == ':');
        }
    }
    let k = t.namespace.len() as int;
    assert forall|j: int| 0 <= j < k implies rest[j] != ':' by {
        assert(rest[j] == t.namespace[j]);
    }
    lemma_find_char_first(rest, ':', k);
    assert(rest.take(k) =~= t.namespace);
    assert(rest.skip(k + 1) =~= t.value);
    assert forall|j: int| 0 <= j < raw.len() implies !is_white_space(#[trigger] raw[j]) by {
        let p = pre.len() as int;
        if j < p {
            assert(raw[j] == '-');
        } else if j < p + k {
            assert(raw[j] == t.namespace[j - p]);
        } else if j == p + k {
            assert(raw[j] == ':');
        } else {
            assert(raw[j] == t.value[j - p - k - 1]);
        }
    }
}

proof fn lemma_query_words(ts: Seq<TokenView>)
    requires
        forall|i: int| 0 <= i < ts.len() ==> writable(#[trigger] ts[i]),
    ensures
        words(query_text(ts)) == ts.map_values(|t: TokenView| token_word(t)),
    decreases ts.len(),
{
    if ts.len() == 1 {
        lemma_token_word(ts[0]);
        lemma_words_single(token_word(ts[0]));
        assert(ts.map_values(|t: TokenView| token_word(t)) =~= seq![token_word(ts[0])]);
    } else if ts.len() > 1 {
        let p = ts.drop_last();
        assert forall|i: int| 0 <= i < p.len() implies writable(#[trigger] p[i]) by {
            assert(p[i] == ts[i]);
        }
        lemma_query_words(p);
        lemma_token_word(ts.last());
        lemma_words_append(query_text(p), token_word(ts.last()));
        assert(ts.map_values(|t: TokenView| token_word(t)) =~= p.map_values(
            |t: TokenView| token_word(t),
        ).push(token_word(ts.last())));
    } else {
        assert(ts.map_values(|t: TokenView| token_word(t)) =~= Seq::<Seq<char>>::empty());
    }
}

proof fn lemma_tokens_of_words(ts: Seq<TokenView>)
    requires
        forall|i: int| 0 <= i < ts.len() ==> writable(#[trigger] ts[i]),
    ensures
        tokens_of(ts.map_values(|t: TokenView| token_word(t))) == Ok::<Seq<TokenView>, Seq<char>>(
            ts,
        ),
    decreases ts.len(),
{
    let ws = ts.map_values(|t: TokenView| token_word(t));
    if ts.len() == 0 {
        assert(ws.len() == 0);
        assert(ts =~= Seq::<TokenView>::empty());
    } else {
        let p = ts.drop_last();
        assert forall|i: int| 0 <= i < p.len() implies writable(#[trigger] p[i]) by {
            assert(p[i] == ts[i]);
        }
        lemma_tokens_of_words(p);
        assert(ws.drop_last() =~= p.map_values(|t: TokenView| token_word(t)));
        lemma_token_word(ts.last());
        assert(ws.last() == token_word(ts.last()));
        assert(p.push(ts.last()) =~= ts);
    }
}

/// Writing tokens as a query and parsing it gives the tokens back:
/// `parse_query` reads `query_text(ts)` as `ts`.
pub proof fn lemma_query_round_trip(ts: Seq<TokenView>)
    requires
        forall|i: int| 0 <= i < ts.len() ==> writable(#[trigger] ts[i]),
    ensures
        tokens_of(words(query_text(ts))) == Ok::<Seq<TokenView>, Seq<char>>(ts),
{
    lemma_query_words(ts);
    lemma_tokens_of_words(ts);
}

/// The columns and table of a search.
pub open spec fn search_select_text() -> Seq<char> {
    "SELECT id, path, title, album, artist, album_artist, track_no, disc_no, duration_ms, year, bitrate, sample_rate, channels FROM tracks t WHERE 1=1"@
}

/// The test that a track carries the tag bound to its two placeholders.
pub open spec fn tag_exists_text() -> Seq<char> {
    "EXISTS (SELECT 1 FROM track_tags tt JOIN tags tg ON tg.id = tt.tag_id WHERE tt.track_id = t.id AND tg.namespace = ? AND tg.value = ?)"@
}

/// The conditions that the tokens add, in order.
pub open spec fn token_conditions(ts: Seq<TokenView>) -> Seq<char>
    decreases ts.len(),
{
    if ts.len() == 0 {
        Seq::empty()
    } else {
        token_conditions(ts.drop_last()) + (if ts.last().negated {
            " AND NOT "@
        } else {
            " AND "@
        }) + tag_exists_text()
    }
}

/// The values bound for the tokens: namespace then value, token by token.
pub open spec fn token_binds(ts: Seq<TokenView>) -> Seq<Seq<char>>
    decreases ts.len(),
{
    if ts.len() == 0 {
        Seq::empty()
    } else {
        token_binds(ts.drop_last()) + seq![ts.last().namespace, ts.last().value]
    }
}

/// Each token adds its own condition, whatever tokens come before it: the
/// conditions of two lists of tokens, one after the other, are the
/// conditions of each list joined; a single token adds ` AND ` (or
/// ` AND NOT ` when negated) and the test that a track carries its tag, and
/// binds its namespace then its value. So a search asks for every tag of the
/// query at once.
pub proof fn lemma_conditions_compose(a: Seq<TokenView>, b: Seq<TokenView>, t: TokenView)
    ensures
        token_conditions(a + b) == token_conditions(a) + token_conditions(b),
        token_binds(a + b) == token_binds(a) + token_binds(b),
        token_conditions(seq![t]) == (if t.negated {
            " AND NOT "@
        } else {
            " AND "@
        }) + tag_exists_text(),
        token_binds(seq![t]) == seq![t.namespace, t.value],
        token_conditions(a.push(t)) == token_conditions(a) + (if t.negated {
            " AND NOT "@
        } else {
            " AND "@
        }) + tag_exists_text(),
    decreases b.len(),
{
    let one = seq![t];
    assert(one.drop_last() =~= Seq::<TokenView>::empty());
    assert(token_conditions(one.drop_last()) =~= Seq::<char>::empty());
    assert(token_binds(one.drop_last()) =~= Seq::<Seq<char>>::empty());
    assert(token_conditions(one) =~= (if t.negated {
        " AND NOT "@
    } else {
        " AND "@
    }) + tag_exists_text());
    assert(token_binds(one) =~= seq![t.namespace, t.value]);
    assert(a.push(t).drop_last() =~= a);
    if b.len() == 0 {
        assert(a + b =~= a);
        assert(token_conditions(b) =~= Seq::<char>::empty());
        assert(token_binds(b) =~= Seq::<Seq<char>>::empty());
        assert(token_conditions(a) + token_conditions(b) =~= token_conditions(a));
        assert(token_binds(a) + token_binds(b) =~= token_binds(a));
    } else {
        lemma_conditions_compose(a, b.drop_last(), t);
        assert((a + b).drop_last() =~= a + b.drop_last());
        assert((a + b).last() == b.last());
        assert(token_conditions(a + b) =~= token_conditions(a) + token_conditions(b));
        assert(token_binds(a + b) =~= token_binds(a) + token_binds(b));
    }
}

/// The ordering and paging of a search.
pub open spec fn search_order_text() -> Seq<char> {
    " ORDER BY album_artist, album, disc_no, track_no, title LIMIT ? OFFSET ?"@
}

/// Plans a search: the tracks that carry every tag of the query and none of
/// its negated ones. A refused word gives its 400; a query with no words
/// gives 400 "query is empty".
pub fn plan_search(q: &SearchQuery) -> (r: Result<SqlQuery, ApiError>)
    ensures
        match tokens_of(words(q.q@)) {
            Ok(ts) => if ts.len() == 0 {
                r matches Err(e) && e.status == STATUS_BAD_REQUEST && e.message@
                    == "query is empty"@
            } else {
                r matches Ok(p) && {
                    &&& p.sql@ == search_select_text() + token_conditions(ts) + search_order_text()
                    &&& p.binds@.map_values(|b: String| b@) == token_binds(ts)
                    &&& p.limit == limit_of(q.limit)
                    &&& p.offset == offset_of(q.offset)
                }
            },
            Err(m) => r matches Err(e) && e.status == STATUS_BAD_REQUEST && e.message@ == m,
        },
{
    let limit = page_limit(q.limit);
    let offset = page_offset(q.offset);
    let tokens = match parse_query(q.q.as_str()) {
        Ok(t) => t,
        Err(e) => {
            return Err(e);
        },
    };
    let ghost ts = tokens_of(words(q.q@))->Ok_0;
    if tokens.len() == 0 {
        return Err(ApiError::bad_request(String::from_str("query is empty")));
    }
    let mut sql = String::from_str(
        "SELECT id, path, title, album, artist, album_artist, track_no, disc_no, duration_ms, year, bitrate, sample_rate, channels FROM tracks t WHERE 1=1",
    );
    let mut binds: Vec<String> = Vec::new();
    let mut i: usize = 0;
    while i < tokens.len()
        invariant
            tokens@.len() == ts.len(),
            forall|k: int| 0 <= k < ts.len() ==> (#[trigger] tokens@[k])@ == ts[k],
            i <= tokens@.len(),
            sql@ == search_select_text() + token_conditions(ts.take(i as int)),
            binds@.map_values(|b: String| b@) == token_binds(ts.take(i as int)),
        decreases tokens@.len() - i,
    {
        let tok = &tokens[i];
        proof {
            assert(ts.take(i + 1).drop_last() =~= ts.take(i as int));
            assert(ts.take(i + 1).last() == tok@);
        }
        let ghost s0 = sql@;
        let ghost b0 = binds@.map_values(|b: String| b@);
        if tok.negated {
            sql.append(" AND NOT ");
        } else {
            sql.append(" AND ");
        }
        sql.append(
            "EXISTS (SELECT 1 FROM track_tags tt JOIN tags tg ON tg.id = tt.tag_id WHERE tt.track_id = t.id AND tg.namespace = ? AND tg.value = ?)",
        );
        binds.push(tok.namespace.clone());
        binds.push(tok.value.clone());
        proof {
            assert(sql@ =~= search_select_text() + token_conditions(ts.take(i + 1)));
            assert(binds@.map_values(|b: String| b@) =~= token_binds(ts.take(i + 1)));
        }
        i = i + 1;
    }
    proof {
        assert(ts.take(i as int) =~= ts);
    }
    sql.append(" ORDER BY album_artist, album, disc_no, track_no, title LIMIT ? OFFSET ?");
    Ok(SqlQuery { sql, binds, limit, offset })
}

} // verus!
