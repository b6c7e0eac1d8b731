//! The composite encoding of a book record: the three text fields are joined
//! into one string by the delimiter `;`, and split back apart on it.

use vstd::prelude::*;

verus! {

/// The encoded form of a record: the three fields joined by the delimiter.
pub open spec fn encode_record(name: Seq<char>, category: Seq<char>, author: Seq<char>) -> Seq<char> {
    name + seq![';'] + category + seq![';'] + author
}

/// The decomposition of an encoded record into its delimiter-free parts,
/// splitting on every occurrence of `;`. Always yields at least one part.
pub open spec fn split_record_spec(s: Seq<char>) -> Seq<Seq<char>>
    decreases s.len(),
{
    if s.len() == 0 {
        seq![Seq::<char>::empty()]
    } else if s[0] == ';' {
        seq![Seq::<char>::empty()] + split_record_spec(s.subrange(1, s.len() as int))
    } else {
        let rest = split_record_spec(s.subrange(1, s.len() as int));
        seq![seq![s[0]] + rest[0]] + rest.subrange(1, rest.len() as int)
    }
}

/// The parts rejoined into one string with the delimiter between them.
pub open spec fn join_parts_spec(parts: Seq<Seq<char>>) -> Seq<char>
    decreases parts.len(),
{
    if parts.len() == 0 {
        Seq::empty()
    } else if parts.len() == 1 {
        parts[0]
    } else {
        parts[0] + seq![';'] + join_parts_spec(parts.subrange(1, parts.len() as int))
    }
}

/// Splitting yields at least one part, whatever the input.
pub proof fn lemma_split_len(s: Seq<char>)
    ensures
        split_record_spec(s).len() >= 1,
    decreases s.len(),
{
    if s.len() > 0 && s[0] != ';' {
        lemma_split_len(s.subrange(1, s.len() as int));
    }
}

/// A string free of the delimiter splits into exactly itself.
pub proof fn lemma_split_no_delim(s: Seq<char>)
    requires
        forall|i: int| 0 <= i < s.len() ==> s[i] != ';',
    ensures
        split_record_spec(s) == seq![s],
    decreases s.len(),
{
    if s.len() == 0 {
        assert(split_record_spec(s) =~~= seq![s]);
    } else {
        let tail = s.subrange(1, s.len() as int);
        lemma_split_no_delim(tail);
        assert(seq![s[0]] + tail =~= s);
        assert(split_record_spec(s) =~~= seq![s]);
    }
}

/// Splitting a string that starts with a delimiter-free part followed by `;`
/// peels that part off the front.
pub proof fn lemma_split_prepend(p: Seq<char>, rest: Seq<char>)
    requires
        forall|i: int| 0 <= i < p.len() ==> p[i] != ';',
    ensures
        split_record_spec(p + seq![';'] + rest) == seq![p] + split_record_spec(rest),
    decreases p.len(),
{
    let s = p + seq![';'] + rest;
    if p.len() == 0 {
        assert(s[0] == ';');
        assert(s.subrange(1, s.len() as int) =~= rest);
        assert(split_record_spec(s) =~~= seq![p] + split_record_spec(rest));
    } else {
        let tail = p.subrange(1, p.len() as int);
        lemma_split_prepend(tail, rest);
        assert(s[0] == p[0]);
        assert(s.subrange(1, s.len() as int) =~= tail + seq![';'] + rest);
        lemma_split_len(rest);
        assert(seq![p[0]] + tail =~= p);
        assert(split_record_spec(s) =~~= seq![p] + split_record_spec(rest));
    }
}

/// Splits a composite string on every delimiter, exactly as the model does.
pub fn split_record(s: &str) -> (parts: Vec<String>)
    ensures
        parts.deep_view() == split_record_spec(s@),
{
    let len = s.unicode_len();
    let mut parts: Vec<String> = Vec::new();
    let mut start: usize = 0;
    let mut i: usize = 0;
    proof {
        assert(s@.subrange(0, len as int) =~= s@);
        assert(parts.deep_view() + split_record_spec(s@) =~~= split_record_spec(s@));
    }
    while i < len
        invariant
            start <= i <= len,
            len == s@.len(),
            forall|k: int| start <= k < i ==> s@[k] != ';',
            split_record_spec(s@) == parts.deep_view() + split_record_spec(s@.subrange(start as int, len as int)),
        decreases len - i,
    {
        if s.get_char(i) == ';' {
            let part = s.substring_char(start, i).to_owned();
            proof {
                lemma_split_prepend(s@.subrange(start as int, i as int), s@.subrange(i as int + 1, len as int));
                assert(s@.subrange(start as int, len as int) =~= s@.subrange(start as int, i as int)
                    + seq![';'] + s@.subrange(i as int + 1, len as int));
                assert(parts.deep_view().push(part@) + split_record_spec(s@.subrange(i as int + 1, len as int))
                    =~~= parts.deep_view() + split_record_spec(s@.subrange(start as int, len as int)));
            }
            parts.push(part);
            proof {
                assert(parts.deep_view() =~~= parts.deep_view().subrange(0, parts.deep_view().len() - 1).push(part@));
            }
            start = i + 1;
        }
        i += 1;
    }
    let last = s.substring_char(start, len).to_owned();
    proof {
        lemma_split_no_delim(s@.subrange(start as int, len as int));
    }
    parts.push(last);
    proof {
        assert(parts.deep_view() =~~= split_record_spec(s@));
    }
    parts
}

/// How a join grows when one more part is appended at the end.
pub proof fn lemma_join_push(parts: Seq<Seq<char>>, last: Seq<char>)
    ensures
        join_parts_spec(parts.push(last)) == if parts.len() == 0 {
            last
        } else {
            join_parts_spec(parts) + seq![';'] + last
        },
    decreases parts.len(),
{
    if parts.len() == 0 {
        assert(parts.push(last) =~~= seq![last]);
    } else {
        let tail = parts.subrange(1, parts.len() as int);
        lemma_join_push(tail, last);
        assert(parts.push(last).subrange(1, parts.len() as int + 1) =~~= tail.push(last));
        assert(parts.push(last)[0] == parts[0]);
        assert(join_parts_spec(parts.push(last)) =~= join_parts_spec(parts) + seq![';'] + last);
    }
}

/// Rejoins the parts with the delimiter, exactly as the model does.
pub fn join_parts(parts: &Vec<String>) -> (r: String)
    ensures
        r@ == join_parts_spec(parts.deep_view()),
{
    proof {
        reveal_strlit(";");
    }
    let mut r = String::new();
    let mut i: usize = 0;
    while i < parts.len()
        invariant
            i <= parts.len(),
            r@ == join_parts_spec(parts.deep_view().subrange(0, i as int)),
        decreases parts.len() - i,
    {
        proof {
            reveal_strlit(";");
            lemma_join_push(parts.deep_view().subrange(0, i as int), parts.deep_view()[i as int]);
            assert(parts.deep_view().subrange(0, i as int + 1)
                =~~= parts.deep_view().subrange(0, i as int).push(parts.deep_view()[i as int]));
        }
        if i > 0 {
            r.append(";");
        }
        r.append(parts[i].as_str());
        i += 1;
    }
    proof {
        assert(parts.deep_view().subrange(0, parts.deep_view().len() as int) =~~= parts.deep_view());
    }
    r
}

/// Law: rejoining the parts of a split gives back the very string, whatever
/// it holds. An update that supplies no replacement field therefore rewrites
/// a record, well-formed or not, to itself.
pub proof fn lemma_split_join_identity(s: Seq<char>)
    ensures
        join_parts_spec(split_record_spec(s)) == s,
    decreases s.len(),
{
    if s.len() == 0 {
        assert(join_parts_spec(split_record_spec(s)) =~= s);
    } else {
        let tail = s.subrange(1, s.len() as int);
        let rest = split_record_spec(tail);
        lemma_split_join_identity(tail);
        lemma_split_len(tail);
        if s[0] == ';' {
            assert((seq![Seq::<char>::empty()] + rest).subrange(1, rest.len() as int + 1) =~~= rest);
            assert(join_parts_spec(split_record_spec(s)) =~= s);
        } else {
            let parts = seq![seq![s[0]] + rest[0]] + rest.subrange(1, rest.len() as int);
            if rest.len() == 1 {
                assert(parts =~~= seq![seq![s[0]] + rest[0]]);
                assert(join_parts_spec(rest) == rest[0]);
                assert(join_parts_spec(parts) =~= s);
            } else {
                assert(parts.subrange(1, parts.len() as int) =~~= rest.subrange(1, rest.len() as int));
                assert(join_parts_spec(rest) == rest[0] + seq![';'] + join_parts_spec(
                    rest.subrange(1, rest.len() as int),
                ));
                assert(join_parts_spec(parts) == parts[0] + seq![';'] + join_parts_spec(
                    rest.subrange(1, rest.len() as int),
                ));
                assert(seq![s[0]] + tail =~= s);
                assert(join_parts_spec(parts) =~= s);
            }
        }
    }
}

/// The parts after replacing each of the first three positions whose
/// replacement is supplied; positions whose replacement is absent keep their
/// value.
pub open spec fn updated_parts(
    parts: Seq<Seq<char>>,
    new_name: Option<Seq<char>>,
    new_category: Option<Seq<char>>,
    new_author: Option<Seq<char>>,
) -> Seq<Seq<char>> {
    let p0 = match new_name {
        Option::Some(n) => parts.update(0, n),
        Option::None => parts,
    };
    let p1 = match new_category {
        Option::Some(c) => p0.update(1, c),
        Option::None => p0,
    };
    match new_author {
        Option::Some(a) => p1.update(2, a),
        Option::None => p1,
    }
}

/// Joining exactly three parts is the composite encoding of those parts.
pub proof fn lemma_join_three(a: Seq<char>, b: Seq<char>, c: Seq<char>)
    ensures
        join_parts_spec(seq![a, b, c]) == encode_record(a, b, c),
{
    let parts = seq![a, b, c];
    assert(parts.subrange(1, 3) =~~= seq![b, c]);
    assert(seq![b, c].subrange(1, 2) =~~= seq![c]);
    assert(join_parts_spec(seq![c]) == c);
    assert(join_parts_spec(seq![b, c]) == b + seq![';'] + c);
    assert(join_parts_spec(parts) == a + seq![';'] + (b + seq![';'] + c));
    assert(a + seq![';'] + (b + seq![';'] + c) =~= encode_record(a, b, c));
}

/// Law: encoding three delimiter-free fields and then splitting yields the
/// original three fields.
pub proof fn lemma_encode_split_round_trip(name: Seq<char>, category: Seq<char>, author: Seq<char>)
    requires
        !name.contains(';'),
        !category.contains(';'),
        !author.contains(';'),
    ensures
        split_record_spec(encode_record(name, category, author)) == seq![name, category, author],
{
    assert forall|i: int| 0 <= i < name.len() implies name[i] != ';' by {
        if name[i] == ';' {
            assert(name.contains(';'));
        }
    }
    assert forall|i: int| 0 <= i < category.len() implies category[i] != ';' by {
        if category[i] == ';' {
            assert(category.contains(';'));
        }
    }
    assert forall|i: int| 0 <= i < author.len() implies author[i] != ';' by {
        if author[i] == ';' {
            assert(author.contains(';'));
        }
    }
    lemma_split_no_delim(author);
    lemma_split_prepend(category, author);
    lemma_split_prepend(name, category + seq![';'] + author);
    assert(encode_record(name, category, author) =~= name + seq![';'] + (category + seq![';'] + author));
    assert(seq![name] + (seq![category] + seq![author]) =~~= seq![name, category, author]);
}

/// Law: updating any subset of the three fields of a well-formed (delimiter-
/// free) record and rejoining gives the record re-encoded from the supplied
/// fields where present and the original fields where absent.
pub proof fn lemma_update_round_trip(
    name: Seq<char>,
    category: Seq<char>,
    author: Seq<char>,
    new_name: Option<Seq<char>>,
    new_category: Option<Seq<char>>,
    new_author: Option<Seq<char>>,
)
    requires
        !name.contains(';'),
        !category.contains(';'),
        !author.contains(';'),
    ensures
        ({
            let name1 = match new_name {
                Option::Some(n) => n,
                Option::None => name,
            };
            let category1 = match new_category {
                Option::Some(c) => c,
                Option::None => category,
            };
            let author1 = match new_author {
                Option::Some(a) => a,
                Option::None => author,
            };
            join_parts_spec(updated_parts(
                split_record_spec(encode_record(name, category, author)),
                new_name,
                new_category,
                new_author,
            )) == encode_record(name1, category1, author1)
        }),
{
    lemma_encode_split_round_trip(name, category, author);
    let name1 = match new_name {
        Option::Some(n) => n,
        Option::None => name,
    };
    let category1 = match new_category {
        Option::Some(c) => c,
        Option::None => category,
    };
    let author1 = match new_author {
        Option::Some(a) => a,
        Option::None => author,
    };
    assert(updated_parts(seq![name, category, author], new_name, new_category, new_author)
        =~~= seq![name1, category1, author1]);
    lemma_join_three(name1, category1, author1);
}

/// Encodes the three fields of a book into one composite string.
pub fn encode_book(name: &str, category: &str, author: &str) -> (r: String)
    ensures
        r@ == encode_record(name@, category@, author@),
{
    proof {
        reveal_strlit(";");
    }
    let mut r = String::new();
    r.append(name);
    r.append(";");
    r.append(category);
    r.append(";");
    r.append(author);
    proof {
        assert(r@ =~= encode_record(name@, category@, author@));
    }
    r
}

} // verus!
