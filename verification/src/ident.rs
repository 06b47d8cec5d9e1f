//! Identifier normalizer: converts a mixed-case compound identifier into the
//! lowercase, underscore-separated key used to index generated registries.

use vstd::prelude::*;

verus! {

/// The characters the normalizer treats as uppercase: the letters 'A'
/// through 'Z'.
pub open spec fn is_upper(c: char) -> bool {
    'A' <= c && c <= 'Z'
}

/// The lowercase image of a character: the letters 'A' through 'Z' map to
/// their lowercase counterparts, every other character is unchanged.
pub open spec fn lower(c: char) -> char {
    match c {
        'A' => 'a',
        'B' => 'b',
        'C' => 'c',
        'D' => 'd',
        'E' => 'e',
        'F' => 'f',
        'G' => 'g',
        'H' => 'h',
        'I' => 'i',
        'J' => 'j',
        'K' => 'k',
        'L' => 'l',
        'M' => 'm',
        'N' => 'n',
        'O' => 'o',
        'P' => 'p',
        'Q' => 'q',
        'R' => 'r',
        'S' => 's',
        'T' => 't',
        'U' => 'u',
        'V' => 'v',
        'W' => 'w',
        'X' => 'x',
        'Y' => 'y',
        'Z' => 'z',
        _ => c,
    }
}

/// What one character contributes to the key when it does not stand first:
/// an uppercase letter gets a separator before its lowercase image.
pub open spec fn snake_piece(c: char) -> Seq<char> {
    if is_upper(c) {
        seq!['_', lower(c)]
    } else {
        seq![lower(c)]
    }
}

/// The contribution of every character after the first.
pub open spec fn snake_tail(s: Seq<char>) -> Seq<char>
    decreases s.len(),
{
    if s.len() == 0 {
        Seq::empty()
    } else {
        snake_piece(s[0]) + snake_tail(s.drop_first())
    }
}

/// The canonical lookup key of an identifier: every character lowercased,
/// with a separator before each uppercase letter that does not stand first.
pub open spec fn snake_of(s: Seq<char>) -> Seq<char> {
    if s.len() == 0 {
        Seq::empty()
    } else {
        seq![lower(s[0])] + snake_tail(s.drop_first())
    }
}

/// Lowercases one character: letters 'A' to 'Z' map to 'a' to 'z', every
/// other character comes back unchanged.
fn lower_char(c: char) -> (r: char)
    ensures
        r == lower(c),
{
    match c {
        'A' => 'a',
        'B' => 'b',
        'C' => 'c',
        'D' => 'd',
        'E' => 'e',
        'F' => 'f',
        'G' => 'g',
        'H' => 'h',
        'I' => 'i',
        'J' => 'j',
        'K' => 'k',
        'L' => 'l',
        'M' => 'm',
        'N' => 'n',
        'O' => 'o',
        'P' => 'p',
        'Q' => 'q',
        'R' => 'r',
        'S' => 's',
        'T' => 't',
        'U' => 'u',
        'V' => 'v',
        'W' => 'w',
        'X' => 'x',
        'Y' => 'y',
        'Z' => 'z',
        _ => c,
    }
}

fn is_upper_char(c: char) -> (r: bool)
    ensures
        r == is_upper(c),
{
    'A' <= c && c <= 'Z'
}

proof fn lemma_snake_tail_push(s: Seq<char>, c: char)
    ensures
        snake_tail(s.push(c)) == snake_tail(s) + snake_piece(c),
    decreases s.len(),
{
    if s.len() == 0 {
        assert(s.push(c).drop_first() =~= Seq::<char>::empty());
        assert(s.push(c)[0] == c);
        assert(snake_tail(s.push(c)) == snake_piece(c) + snake_tail(s.push(c).drop_first()));
        assert(snake_tail(s.push(c)) =~= snake_tail(s) + snake_piece(c));
    } else {
        assert(s.push(c).drop_first() =~= s.drop_first().push(c));
        lemma_snake_tail_push(s.drop_first(), c);
        assert(s.push(c)[0] == s[0]);
        assert(snake_tail(s.push(c)) == snake_piece(s[0]) + snake_tail(s.drop_first().push(c)));
        assert(snake_tail(s.push(c)) =~= snake_tail(s) + snake_piece(c));
    }
}

proof fn lemma_snake_of_push(s: Seq<char>, c: char)
    ensures
        s.len() == 0 ==> snake_of(s.push(c)) == seq![lower(c)],
        s.len() > 0 ==> snake_of(s.push(c)) == snake_of(s) + snake_piece(c),
{
    if s.len() == 0 {
        assert(snake_of(s.push(c)) =~= seq![lower(c)]);
    } else {
        assert(s.push(c).drop_first() =~= s.drop_first().push(c));
        lemma_snake_tail_push(s.drop_first(), c);
        assert(snake_of(s.push(c)) =~= snake_of(s) + snake_piece(c));
    }
}

/// Converts a declaration name into its canonical lookup key: lowercase,
/// with an underscore inserted before every uppercase letter that is not the
/// first character. Consecutive uppercase letters each get their own
/// separator.
pub fn to_snake_case(input: &str) -> (r: String)
    ensures
        r@ == snake_of(input@),
{
    let n = input.unicode_len();
    let mut snake = String::new();
    let mut i: usize = 0;
    while i < n
        invariant
            0 <= i <= n,
            n == input@.len(),
            snake@ == snake_of(input@.take(i as int)),
        decreases n - i,
    {
        let ch = input.get_char(i);
        if i > 0 && is_upper_char(ch) {
            snake.push('_');
        }
        snake.push(lower_char(ch));
        proof {
            let pre = input@.take(i as int);
            lemma_snake_of_push(pre, input@[i as int]);
            assert(pre.push(input@[i as int]) =~= input@.take(i as int + 1));
            if i > 0 && !is_upper(input@[i as int]) {
                assert(snake@ =~= snake_of(pre) + snake_piece(input@[i as int]));
            }
        }
        i += 1;
    }
    proof {
        assert(input@.take(n as int) =~= input@);
    }
    snake
}

/// A sequence without uppercase letters.
pub open spec fn no_upper(s: Seq<char>) -> bool {
    forall|i: int| 0 <= i < s.len() ==> !is_upper(#[trigger] s[i])
}

proof fn lemma_snake_tail_no_upper(s: Seq<char>)
    ensures
        no_upper(snake_tail(s)),
    decreases s.len(),
{
    if s.len() > 0 {
        lemma_snake_tail_no_upper(s.drop_first());
        assert forall|i: int| 0 <= i < snake_tail(s).len() implies !is_upper(
            #[trigger] snake_tail(s)[i],
        ) by {
            let head = snake_piece(s[0]);
            if i >= head.len() {
                assert(snake_tail(s)[i] == snake_tail(s.drop_first())[i - head.len()]);
            }
        }
    }
}

/// The key of an identifier holds no uppercase letter.
pub proof fn lemma_snake_of_no_upper(s: Seq<char>)
    ensures
        no_upper(snake_of(s)),
{
    if s.len() > 0 {
        lemma_snake_tail_no_upper(s.drop_first());
        assert forall|i: int| 0 <= i < snake_of(s).len() implies !is_upper(
            #[trigger] snake_of(s)[i],
        ) by {
            if i >= 1 {
                assert(snake_of(s)[i] == snake_tail(s.drop_first())[i - 1]);
            }
        }
    }
}

proof fn lemma_snake_tail_identity(s: Seq<char>)
    requires
        no_upper(s),
    ensures
        snake_tail(s) == s,
    decreases s.len(),
{
    if s.len() > 0 {
        assert(no_upper(s.drop_first())) by {
            assert(forall|i: int|
                0 <= i < s.drop_first().len() ==> #[trigger] s.drop_first()[i] == s[i + 1]);
        }
        lemma_snake_tail_identity(s.drop_first());
        assert(!is_upper(s[0]));
        assert(lower(s[0]) == s[0]);
        assert(snake_tail(s) =~= s);
    }
}

/// Normalizing a key that is already in canonical form changes nothing.
pub proof fn lemma_snake_of_identity(s: Seq<char>)
    requires
        no_upper(s),
    ensures
        snake_of(s) == s,
{
    if s.len() > 0 {
        assert(no_upper(s.drop_first())) by {
            assert(forall|i: int|
                0 <= i < s.drop_first().len() ==> #[trigger] s.drop_first()[i] == s[i + 1]);
        }
        lemma_snake_tail_identity(s.drop_first());
        assert(!is_upper(s[0]));
        assert(lower(s[0]) == s[0]);
        assert(snake_of(s) =~= s);
    }
}

/// Normalization is idempotent: feeding a normalized key through the
/// normalizer again yields the same key, so the key is stable however often
/// it is recomputed.
pub proof fn lemma_normalize_idempotent(s: Seq<char>)
    ensures
        snake_of(snake_of(s)) == snake_of(s),
{
    lemma_snake_of_no_upper(s);
    lemma_snake_of_identity(snake_of(s));
}

} // verus!
