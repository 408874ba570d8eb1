use vstd::prelude::*;

verus! {

/// The extension of a saved guild's file.
pub open spec fn saved_extension() -> Seq<char> {
    seq!['.', 'r', 'o', 'n']
}

pub open spec fn is_digit(c: char) -> bool {
    '0' <= c && c <= '9'
}

/// The number written by a string of decimal digits.
pub open spec fn decimal_value(s: Seq<char>) -> int
    decreases s.len(),
{
    if s.len() == 0 {
        0
    } else {
        decimal_value(s.drop_last()) * 10 + (s.last() as int - '0' as int)
    }
}

/// The guild a saved file belongs to: its name is the guild's id in decimal
/// digits followed by ".ron", and the id fits in 64 bits.
pub open spec fn saved_file_guild(name: Seq<char>) -> Option<u64> {
    let n = name.len() - 4;
    if name.len() > 4 && name.subrange(n, name.len() as int) == saved_extension() && (forall|
        i: int,
    |
        0 <= i < n ==> is_digit(#[trigger] name[i])) && decimal_value(name.subrange(0, n))
        <= u64::MAX {
        Some(decimal_value(name.subrange(0, n)) as u64)
    } else {
        None
    }
}

/// A longer string of digits never writes a smaller number.
proof fn lemma_decimal_grows(s: Seq<char>, k: int)
    requires
        0 <= k <= s.len(),
        forall|i: int| 0 <= i < s.len() ==> is_digit(#[trigger] s[i]),
    ensures
        decimal_value(s.take(k)) <= decimal_value(s),
        decimal_value(s) >= 0,
    decreases s.len(),
{
    if s.len() > 0 {
        let init = s.drop_last();
        assert forall|i: int| 0 <= i < init.len() implies is_digit(#[trigger] init[i]) by {
            assert(init[i] == s[i]);
        }
        if k < s.len() {
            lemma_decimal_grows(init, k);
            assert(init.take(k) =~= s.take(k));
        } else {
            assert(s.take(k) =~= s);
            lemma_decimal_grows(init, 0);
        }
        assert(is_digit(s[s.len() - 1]));
    } else {
        assert(s.take(k) =~= s);
    }
}

/// Reads the guild id from a saved file's name.
pub fn guild_of_saved_file(name: &str) -> (r: Option<u64>)
    ensures
        r == saved_file_guild(name@),
{
    let len = name.unicode_len();
    if len <= 4 {
        return None;
    }
    let n = len - 4;
    proof {
        reveal_strlit(".ron");
    }
    if name.get_char(n) != '.' || name.get_char(n + 1) != 'r' || name.get_char(n + 2) != 'o'
        || name.get_char(n + 3) != 'n' {
        proof {
            let t = name@.subrange(n as int, len as int);
            assert(t[0] == name@[n as int] && t[1] == name@[n + 1] && t[2] == name@[n + 2] && t[3]
                == name@[n + 3]);
        }
        return None;
    }
    proof {
        assert(name@.subrange(n as int, len as int) =~= saved_extension());
    }
    let ghost stem = name@.subrange(0, n as int);
    let mut value: u64 = 0;
    let mut i: usize = 0;
    while i < n
        invariant
            len == name@.len(),
            n == len - 4,
            stem == name@.subrange(0, n as int),
            0 <= i <= n,
            forall|j: int| 0 <= j < i ==> is_digit(#[trigger] name@[j]),
            value == decimal_value(stem.take(i as int)),
        decreases n - i,
    {
        let c = name.get_char(i);
        if !('0' <= c && c <= '9') {
            return None;
        }
        proof {
            assert(stem.take(i + 1).drop_last() =~= stem.take(i as int));
            assert(stem.take(i + 1).last() == c);
        }
        let d = (c as u32 - '0' as u32) as u64;
        let next = match value.checked_mul(10) {
            Some(v) => v.checked_add(d),
            None => None,
        };
        match next {
            Some(v) => {
                value = v;
            },
            None => {
                proof {
                    assert forall|j: int| 0 <= j < i + 1 implies is_digit(
                        #[trigger] stem.take(i + 1)[j],
                    ) by {
                        assert(stem.take(i + 1)[j] == name@[j]);
                    }
                    if forall|j: int| 0 <= j < n ==> is_digit(#[trigger] name@[j]) {
                        assert forall|j: int| 0 <= j < stem.len() implies is_digit(
                            #[trigger] stem[j],
                        ) by {
                            assert(stem[j] == name@[j]);
                        }
                        lemma_decimal_grows(stem, i + 1);
                    }
                }
                return None;
            },
        }
        i = i + 1;
    }
    proof {
        assert(stem.take(n as int) =~= stem);
    }
    Some(value)
}

} // verus!
