//! The text of one result line: the query, the size of the corpus, the
//! retained candidates as `distance,text` pairs, and a note on exact
//! matches. Fields are joined by the delimiter; nothing is escaped.

use vstd::prelude::*;
use vstd::string::*;

verus! {

/// A reference string together with its distance from the query.
#[derive(Debug)]
pub struct Candidate {
    pub distance: usize,
    pub text: String,
}

impl View for Candidate {
    type V = (nat, Seq<char>);

    open spec fn view(&self) -> (nat, Seq<char>) {
        (self.distance as nat, self.text@)
    }
}

/// The candidates of a list as distance and text.
pub open spec fn candidate_views(top: Seq<Candidate>) -> Seq<(nat, Seq<char>)> {
    Seq::new(top.len(), |k: int| top[k]@)
}

/// The character of a decimal digit.
pub open spec fn digit_char(d: nat) -> char {
    if d == 0 {
        '0'
    } else if d == 1 {
        '1'
    } else if d == 2 {
        '2'
    } else if d == 3 {
        '3'
    } else if d == 4 {
        '4'
    } else if d == 5 {
        '5'
    } else if d == 6 {
        '6'
    } else if d == 7 {
        '7'
    } else if d == 8 {
        '8'
    } else {
        '9'
    }
}

/// A number in decimal, without sign or leading zeros.
pub open spec fn decimal(n: nat) -> Seq<char>
    decreases n,
{
    if n < 10 {
        seq![digit_char(n)]
    } else {
        decimal(n / 10).push(digit_char(n % 10))
    }
}

/// One retained candidate: its distance, a comma, its text.
pub open spec fn pair_text(candidate: (nat, Seq<char>)) -> Seq<char> {
    decimal(candidate.0) + seq![','] + candidate.1
}

/// The retained candidates in order, each followed by the delimiter.
pub open spec fn pairs_text(top: Seq<(nat, Seq<char>)>, del: Seq<char>) -> Seq<char>
    decreases top.len(),
{
    if top.len() == 0 {
        Seq::empty()
    } else {
        pairs_text(top.drop_last(), del) + pair_text(top.last()) + del
    }
}

/// The note on exact matches, present only if there is one.
pub open spec fn zero_note(zero_count: nat, del: Seq<char>) -> Seq<char> {
    if zero_count > 0 {
        del + ", "@ + decimal(zero_count) + " COUNT OF ZERO results"@
    } else {
        Seq::empty()
    }
}

/// The query and the size of the corpus, each followed by the delimiter.
pub open spec fn line_head(query: Seq<char>, total: nat, del: Seq<char>) -> Seq<char> {
    query + del + decimal(total) + del
}

/// A whole result line.
pub open spec fn line_text(
    query: Seq<char>,
    total: nat,
    top: Seq<(nat, Seq<char>)>,
    zero_count: nat,
    del: Seq<char>,
) -> Seq<char> {
    line_head(query, total, del) + pairs_text(top, del) + zero_note(zero_count, del)
}

/// The text of one decimal digit.
fn digit_text(d: usize) -> (s: &'static str)
    requires
        d < 10,
    ensures
        s@ == seq![digit_char(d as nat)],
{
    proof {
        reveal_strlit("0");
        reveal_strlit("1");
        reveal_strlit("2");
        reveal_strlit("3");
        reveal_strlit("4");
        reveal_strlit("5");
        reveal_strlit("6");
        reveal_strlit("7");
        reveal_strlit("8");
        reveal_strlit("9");
    }
    let s = if d == 0 {
        "0"
    } else if d == 1 {
        "1"
    } else if d == 2 {
        "2"
    } else if d == 3 {
        "3"
    } else if d == 4 {
        "4"
    } else if d == 5 {
        "5"
    } else if d == 6 {
        "6"
    } else if d == 7 {
        "7"
    } else if d == 8 {
        "8"
    } else {
        "9"
    };
    assert(s@ =~= seq![digit_char(d as nat)]);
    s
}

/// Appends a number in decimal.
pub fn append_decimal(line: &mut String, n: usize)
    ensures
        final(line)@ == old(line)@ + decimal(n as nat),
    decreases n,
{
    if n >= 10 {
        append_decimal(line, n / 10);
    }
    line.append(digit_text(n % 10));
    proof {
        assert(line@ =~= old(line)@ + decimal(n as nat));
    }
}

/// Writes one result line: the query, the corpus size, each retained
/// candidate as `distance,text`, every field followed by the delimiter,
/// and at the end the note on exact matches if there is any.
pub fn format_result_line(
    search_str: &str,
    total: usize,
    top: &Vec<Candidate>,
    zero_count: usize,
    del: &str,
) -> (line: String)
    ensures
        line@ == line_text(
            search_str@,
            total as nat,
            candidate_views(top@),
            zero_count as nat,
            del@,
        ),
{
    let ghost views = candidate_views(top@);
    let mut line = String::new();
    line.append(search_str);
    line.append(del);
    append_decimal(&mut line, total);
    line.append(del);
    proof {
        assert(line@ =~= line_head(search_str@, total as nat, del@));
        assert(views.take(0) =~= Seq::<(nat, Seq<char>)>::empty());
        assert(line@ =~= line_head(search_str@, total as nat, del@) + pairs_text(
            views.take(0),
            del@,
        ));
    }
    let mut k: usize = 0;
    while k < top.len()
        invariant
            k <= top.len(),
            views == candidate_views(top@),
            line@ == line_head(search_str@, total as nat, del@) + pairs_text(
                views.take(k as int),
                del@,
            ),
        decreases top.len() - k,
    {
        let ghost before = line@;
        append_decimal(&mut line, top[k].distance);
        proof {
            reveal_strlit(",");
        }
        line.append(",");
        line.append(top[k].text.as_str());
        line.append(del);
        proof {
            let upto = views.take(k + 1);
            assert(upto.drop_last() =~= views.take(k as int));
            assert(upto.last() == top@[k as int]@);
            assert(","@ =~= seq![',']);
            assert(line@ =~= before + pair_text(upto.last()) + del@);
            assert(line@ =~= line_head(search_str@, total as nat, del@) + pairs_text(upto, del@));
        }
        k += 1;
    }
    proof {
        assert(views.take(top.len() as int) =~= views);
    }
    let ghost body = line@;
    if zero_count > 0 {
        line.append(del);
        line.append(", ");
        append_decimal(&mut line, zero_count);
        line.append(" COUNT OF ZERO results");
        proof {
            assert(line@ =~= body + zero_note(zero_count as nat, del@));
        }
    } else {
        proof {
            assert(line@ =~= body + zero_note(zero_count as nat, del@));
        }
    }
    line
}

} // verus!
