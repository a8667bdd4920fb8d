use vstd::prelude::*;
use vstd::string::StringExecFns;

verus! {

/// What the logic reads of a failed database request: whether a unique
/// constraint was violated, and the database's message.
#[derive(Debug, Clone, PartialEq)]
pub struct DatabaseFailure {
    pub unique_violation: bool,
    pub message: String,
}

/// The parts of a text between the occurrences of a separator.
pub open spec fn split_at_char(s: Seq<char>, c: char) -> Seq<Seq<char>>
    decreases s.len(),
{
    if s.len() == 0 {
        seq![Seq::<char>::empty()]
    } else {
        let p = split_at_char(s.drop_last(), c);
        if s.last() == c {
            p.push(Seq::<char>::empty())
        } else {
            p.update(p.len() - 1, p.last().push(s.last()))
        }
    }
}

proof fn lemma_split_len(s: Seq<char>, c: char)
    ensures
        split_at_char(s, c).len() >= 1,
    decreases s.len(),
{
    if s.len() > 0 {
        lemma_split_len(s.drop_last(), c);
    }
}

/// Whether the failure is the violation of the unique key `key`. The
/// message of such a failure reads like `Duplicate entry 'value' for key
/// 'table.key'`: the key is its fourth part between single quotes.
pub fn is_error_duplicate_key(error: &DatabaseFailure, key: &str) -> (r: bool)
    ensures
        r == (error.unique_violation && split_at_char(error.message@, '\'').len() > 3 && split_at_char(
            error.message@,
            '\'',
        )[3] == key@),
{
    if !error.unique_violation {
        return false;
    }
    let msg = error.message.as_str();
    let n = msg.unicode_len();
    let mut quotes: usize = 0;
    let mut part = String::new();
    let mut i: usize = 0;
    while i < n
        invariant
            i <= n,
            quotes <= i,
            n == msg@.len(),
            msg@ == error.message@,
            split_at_char(msg@.subrange(0, i as int), '\'').len() == quotes + 1,
            quotes < 3 ==> part@ == Seq::<char>::empty(),
            quotes >= 3 ==> part@ == split_at_char(msg@.subrange(0, i as int), '\'')[3],
        decreases n - i,
    {
        let c = msg.get_char(i);
        let ghost p = split_at_char(msg@.subrange(0, i as int), '\'');
        assert(msg@.subrange(0, i + 1).drop_last() =~= msg@.subrange(0, i as int));
        assert(msg@.subrange(0, i + 1).last() == c);
        if c == '\'' {
            quotes = quotes + 1;
        } else if quotes == 3 {
            part.push(c);
        }
        i = i + 1;
    }
    assert(msg@.subrange(0, n as int) =~= msg@);
    if quotes >= 3 {
        proof {
            lemma_split_len(msg@, '\'');
        }
        String::from_str(key) == part
    } else {
        false
    }
}

} // verus!
