//! The shared task files: one JSON file per task, under a directory named
//! by the first two characters of the task's global id, so that tasks
//! changed apart merge without conflict.
use crate::path::{join, join_path};
use crate::domain::task::ascii_lower;
use crate::text::{chars_of, string_of};
use vstd::prelude::*;

verus! {

/// The character of the hexadecimal digit `n` (lowercase).
pub open spec fn hex_digit(n: u128) -> char {
    if n == 0 {
        '0'
    } else if n == 1 {
        '1'
    } else if n == 2 {
        '2'
    } else if n == 3 {
        '3'
    } else if n == 4 {
        '4'
    } else if n == 5 {
        '5'
    } else if n == 6 {
        '6'
    } else if n == 7 {
        '7'
    } else if n == 8 {
        '8'
    } else if n == 9 {
        '9'
    } else if n == 10 {
        'a'
    } else if n == 11 {
        'b'
    } else if n == 12 {
        'c'
    } else if n == 13 {
        'd'
    } else if n == 14 {
        'e'
    } else {
        'f'
    }
}

/// The `k`-th hexadecimal digit of `id`, most significant first.
pub open spec fn nibble(id: u128, k: int) -> u128 {
    (id >> ((31 - k) * 4) as u128) & 0xfu128
}

/// The text of a UUID: 32 lowercase hexadecimal digits, most significant
/// first, with hyphens after the 8th, 12th, 16th and 20th.
pub open spec fn uuid_text(id: u128) -> Seq<char> {
    Seq::new(
        36,
        |p: int|
            if p == 8 || p == 13 || p == 18 || p == 23 {
                '-'
            } else {
                let k = if p < 8 {
                    p
                } else if p < 13 {
                    p - 1
                } else if p < 18 {
                    p - 2
                } else if p < 23 {
                    p - 3
                } else {
                    p - 4
                };
                hex_digit(nibble(id, k))
            },
    )
}

/// The text of the UUID whose 128-bit number is `id`, as `Uuid::to_string`
/// writes it (`uuid::Uuid::from_u128`, then the hyphenated lowercase form).
#[verifier::external_body]
pub(crate) fn uuid_string(id: u128) -> (r: String)
    ensures
        r@ == uuid_text(id),
{
    uuid::Uuid::from_u128(id).to_string()
}

/// The value of the hexadecimal digit `c`, in either case.
pub open spec fn hex_value(c: char) -> Option<int> {
    if '0' <= c <= '9' {
        Some(c as int - '0' as int)
    } else if 'a' <= c <= 'f' {
        Some(c as int - 'a' as int + 10)
    } else if 'A' <= c <= 'F' {
        Some(c as int - 'A' as int + 10)
    } else {
        None
    }
}

/// The number that the hexadecimal digits `s` write, most significant
/// first; `None` when one of them is not a digit.
pub open spec fn hex_number(s: Seq<char>) -> Option<int>
    decreases s.len(),
{
    if s.len() == 0 {
        Some(0)
    } else {
        match (hex_number(s.drop_last()), hex_value(s.last())) {
            (Some(high), Some(low)) => Some(high * 16 + low),
            _ => None,
        }
    }
}

/// The 32 digits of the hyphenated form: 36 characters with hyphens at
/// places 8, 13, 18 and 23.
pub open spec fn hyphenated_number(s: Seq<char>) -> Option<int> {
    if s.len() == 36 && s[8] == '-' && s[13] == '-' && s[18] == '-' && s[23] == '-' {
        hex_number(
            s.take(8) + s.subrange(9, 13) + s.subrange(14, 18) + s.subrange(19, 23) + s.skip(24),
        )
    } else {
        None
    }
}

/// The 128-bit number of the UUID that `uuid::Uuid::parse_str` reads from
/// `s`: 32 digits; or the hyphenated form, bare, in braces, or after
/// `urn:uuid:` in any case; `None` for anything else.
pub open spec fn uuid_parsed(s: Seq<char>) -> Option<u128> {
    let v = if s.len() == 32 {
        hex_number(s)
    } else if s.len() == 36 {
        hyphenated_number(s)
    } else if s.len() == 38 && s[0] == '{' && s[37] == '}' {
        hyphenated_number(s.subrange(1, 37))
    } else if s.len() == 45 && ascii_lower(s.take(9)) == "urn:uuid:"@ {
        hyphenated_number(s.skip(9))
    } else {
        None
    };
    match v {
        Some(n) => Some(n as u128),
        None => None,
    }
}

/// Reads a UUID through `uuid::Uuid::parse_str` and gives its 128-bit number
/// (`Uuid::as_u128`, the 16 bytes read most significant first), or `None`
/// when the text is refused. `try_parse` (`parser.rs`) takes 32 bytes as
/// bare digits, 36 as the hyphenated form, 38 as that form in braces and 45
/// as `urn:uuid:` (any case) before it; `decode_hex32` takes digits in
/// either case. Every byte of an accepted text is examined and is ASCII, so
/// counting characters instead of bytes gives the same verdicts.
#[verifier::external_body]
pub(crate) fn parse_uuid(s: &str) -> (r: Option<u128>)
    ensures
        r == uuid_parsed(s@),
{
    match uuid::Uuid::parse_str(s) {
        Ok(u) => Some(u.as_u128()),
        Err(_) => None,
    }
}

proof fn lemma_hex_value_digit(v: u128)
    requires
        v < 16,
    ensures
        hex_value(hex_digit(v)) == Some(v as int),
{
}

/// The first `k` digits of `n`, most significant first, write `n` shifted
/// right by the other digits.
proof fn lemma_hex_prefix(n: u128, k: int)
    requires
        1 <= k <= 32,
    ensures
        hex_number(Seq::new(32, |i: int| hex_digit(nibble(n, i))).take(k)) == Some(
            (n >> (4 * (32 - k)) as u128) as int,
        ),
    decreases k,
{
    let d = Seq::new(32, |i: int| hex_digit(nibble(n, i)));
    let t = d.take(k);
    let sh = (4 * (32 - k)) as u128;
    let sl = (4 * (31 - (k - 1))) as u128;
    let a = n >> ((31 - (k - 1)) * 4) as u128;
    assert(nibble(n, k - 1) == a & 0xfu128);
    assert(a & 0xfu128 < 16) by (bit_vector);
    lemma_hex_value_digit(nibble(n, k - 1));
    assert(t.last() == hex_digit(nibble(n, k - 1)));
    assert(a & 0xfu128 == a % 16) by (bit_vector);
    if k == 1 {
        assert(t.drop_last() =~= Seq::<char>::empty());
        assert(sh == 124);
        assert(a == n >> 124u128);
        assert((n >> 124u128) & 0xfu128 == n >> 124u128) by (bit_vector);
        assert(hex_number(t.drop_last()) == Some(0int));
        assert(hex_value(t.last()) == Some(nibble(n, 0) as int));
        assert(hex_number(t) == Some(0int * 16 + nibble(n, 0) as int));
    } else {
        lemma_hex_prefix(n, k - 1);
        assert(t.drop_last() =~= d.take(k - 1));
        let s2 = (4 * (32 - (k - 1))) as u128;
        assert(s2 == sh + 4);
        let b = n >> sh;
        assert(a == b) by {
            assert(sl == sh);
        }
        assert(n >> (sh + 4) == (n >> sh) >> 4u128) by (bit_vector)
            requires
                sh <= 120;
        assert(b >> 4u128 == b / 16) by (bit_vector);
        assert(b as int == (b / 16) * 16 + b % 16);
        assert(hex_number(t.drop_last()) == Some((b / 16) as int));
        assert(hex_value(t.last()) == Some((b % 16) as int));
        assert(hex_number(t) == Some((b / 16) as int * 16 + (b % 16) as int));
    }
}

/// The text that `uuid_string` writes reads back as the number it was
/// written from.
pub proof fn lemma_uuid_round_trip(n: u128)
    ensures
        uuid_parsed(uuid_text(n)) == Some(n),
{
    let s = uuid_text(n);
    let d = Seq::new(32, |i: int| hex_digit(nibble(n, i)));
    assert(s.take(8) + s.subrange(9, 13) + s.subrange(14, 18) + s.subrange(19, 23) + s.skip(24)
        =~= d);
    lemma_hex_prefix(n, 32);
    assert(d.take(32) =~= d);
    assert(n >> 0u128 == n) by (bit_vector);
}

/// The text of the UUID whose 128-bit number is `id`: hyphenated, lowercase.
pub fn id_text(id: u128) -> (r: String)
    ensures
        r@ == uuid_text(id),
{
    uuid_string(id)
}

proof fn lemma_hex_digit_injective(n: u128, m: u128)
    requires
        n < 16,
        m < 16,
        hex_digit(n) == hex_digit(m),
    ensures
        n == m,
{
}

proof fn lemma_nibble_eq(a: u128, b: u128, k: int, p: int)
    requires
        0 <= k < 32,
        p == (if k < 8 {
            k
        } else if k < 12 {
            k + 1
        } else if k < 16 {
            k + 2
        } else if k < 20 {
            k + 3
        } else {
            k + 4
        }),
        uuid_text(a) == uuid_text(b),
    ensures
        nibble(a, k) == nibble(b, k),
{
    assert(0 <= p < 36);
    assert(p != 8 && p != 13 && p != 18 && p != 23);
    assert(uuid_text(a)[p] == hex_digit(nibble(a, k)));
    assert(uuid_text(b)[p] == hex_digit(nibble(b, k)));
    assert(uuid_text(a)[p] == uuid_text(b)[p]);
    let x = a >> ((31 - k) * 4) as u128;
    let y = b >> ((31 - k) * 4) as u128;
    assert(x & 0xfu128 < 16) by (bit_vector);
    assert(y & 0xfu128 < 16) by (bit_vector);
    lemma_hex_digit_injective(nibble(a, k), nibble(b, k));
}

/// The text of a UUID determines it: two ids with the same text are the
/// same id.
pub proof fn lemma_uuid_text_injective(a: u128, b: u128)
    requires
        uuid_text(a) == uuid_text(b),
    ensures
        a == b,
{
    lemma_nibble_eq(a, b, 0, 0);
    lemma_nibble_eq(a, b, 1, 1);
    lemma_nibble_eq(a, b, 2, 2);
    lemma_nibble_eq(a, b, 3, 3);
    lemma_nibble_eq(a, b, 4, 4);
    lemma_nibble_eq(a, b, 5, 5);
    lemma_nibble_eq(a, b, 6, 6);
    lemma_nibble_eq(a, b, 7, 7);
    lemma_nibble_eq(a, b, 8, 9);
    lemma_nibble_eq(a, b, 9, 10);
    lemma_nibble_eq(a, b, 10, 11);
    lemma_nibble_eq(a, b, 11, 12);
    lemma_nibble_eq(a, b, 12, 14);
    lemma_nibble_eq(a, b, 13, 15);
    lemma_nibble_eq(a, b, 14, 16);
    lemma_nibble_eq(a, b, 15, 17);
    lemma_nibble_eq(a, b, 16, 19);
    lemma_nibble_eq(a, b, 17, 20);
    lemma_nibble_eq(a, b, 18, 21);
    lemma_nibble_eq(a, b, 19, 22);
    lemma_nibble_eq(a, b, 20, 24);
    lemma_nibble_eq(a, b, 21, 25);
    lemma_nibble_eq(a, b, 22, 26);
    lemma_nibble_eq(a, b, 23, 27);
    lemma_nibble_eq(a, b, 24, 28);
    lemma_nibble_eq(a, b, 25, 29);
    lemma_nibble_eq(a, b, 26, 30);
    lemma_nibble_eq(a, b, 27, 31);
    lemma_nibble_eq(a, b, 28, 32);
    lemma_nibble_eq(a, b, 29, 33);
    lemma_nibble_eq(a, b, 30, 34);
    lemma_nibble_eq(a, b, 31, 35);
    assert(a == b) by (bit_vector)
        requires
            (a >> 124u128) & 0xfu128 == (b >> 124u128) & 0xfu128,
            (a >> 120u128) & 0xfu128 == (b >> 120u128) & 0xfu128,
            (a >> 116u128) & 0xfu128 == (b >> 116u128) & 0xfu128,
            (a >> 112u128) & 0xfu128 == (b >> 112u128) & 0xfu128,
            (a >> 108u128) & 0xfu128 == (b >> 108u128) & 0xfu128,
            (a >> 104u128) & 0xfu128 == (b >> 104u128) & 0xfu128,
            (a >> 100u128) & 0xfu128 == (b >> 100u128) & 0xfu128,
            (a >> 96u128) & 0xfu128 == (b >> 96u128) & 0xfu128,
            (a >> 92u128) & 0xfu128 == (b >> 92u128) & 0xfu128,
            (a >> 88u128) & 0xfu128 == (b >> 88u128) & 0xfu128,
            (a >> 84u128) & 0xfu128 == (b >> 84u128) & 0xfu128,
            (a >> 80u128) & 0xfu128 == (b >> 80u128) & 0xfu128,
            (a >> 76u128) & 0xfu128 == (b >> 76u128) & 0xfu128,
            (a >> 72u128) & 0xfu128 == (b >> 72u128) & 0xfu128,
            (a >> 68u128) & 0xfu128 == (b >> 68u128) & 0xfu128,
            (a >> 64u128) & 0xfu128 == (b >> 64u128) & 0xfu128,
            (a >> 60u128) & 0xfu128 == (b >> 60u128) & 0xfu128,
            (a >> 56u128) & 0xfu128 == (b >> 56u128) & 0xfu128,
            (a >> 52u128) & 0xfu128 == (b >> 52u128) & 0xfu128,
            (a >> 48u128) & 0xfu128 == (b >> 48u128) & 0xfu128,
            (a >> 44u128) & 0xfu128 == (b >> 44u128) & 0xfu128,
            (a >> 40u128) & 0xfu128 == (b >> 40u128) & 0xfu128,
            (a >> 36u128) & 0xfu128 == (b >> 36u128) & 0xfu128,
            (a >> 32u128) & 0xfu128 == (b >> 32u128) & 0xfu128,
            (a >> 28u128) & 0xfu128 == (b >> 28u128) & 0xfu128,
            (a >> 24u128) & 0xfu128 == (b >> 24u128) & 0xfu128,
            (a >> 20u128) & 0xfu128 == (b >> 20u128) & 0xfu128,
            (a >> 16u128) & 0xfu128 == (b >> 16u128) & 0xfu128,
            (a >> 12u128) & 0xfu128 == (b >> 12u128) & 0xfu128,
            (a >> 8u128) & 0xfu128 == (b >> 8u128) & 0xfu128,
            (a >> 4u128) & 0xfu128 == (b >> 4u128) & 0xfu128,
            (a >> 0u128) & 0xfu128 == (b >> 0u128) & 0xfu128,
    ;
}

/// `rel` joined onto a path ends with `rel` when `rel` is relative.
proof fn lemma_join_ends_with(base: Seq<char>, rel: Seq<char>)
    requires
        rel.len() > 0,
        rel[0] != '/',
    ensures
        join(base, rel).len() >= rel.len(),
        join(base, rel).subrange(join(base, rel).len() - rel.len(), join(base, rel).len() as int)
            == rel,
{
    let j = join(base, rel);
    assert(j.subrange(j.len() - rel.len(), j.len() as int) =~= rel);
}

/// Each task has a file of its own: tasks with different global ids are
/// kept in different files.
pub proof fn lemma_task_files_distinct(base: Seq<char>, a: u128, b: u128)
    requires
        a != b,
    ensures
        task_file(base, a) != task_file(base, b),
{
    let ra = uuid_text(a) + ".json"@;
    let rb = uuid_text(b) + ".json"@;
    reveal_strlit(".json");
    assert(ra[0] == uuid_text(a)[0]);
    assert(rb[0] == uuid_text(b)[0]);
    assert(ra[0] != '/');
    assert(rb[0] != '/');
    lemma_join_ends_with(join(base, uuid_text(a).take(2)), ra);
    lemma_join_ends_with(join(base, uuid_text(b).take(2)), rb);
    if task_file(base, a) == task_file(base, b) {
        let f = task_file(base, a);
        assert(ra.len() == rb.len());
        assert(ra =~= f.subrange(f.len() - ra.len(), f.len() as int));
        assert(uuid_text(a) =~= ra.take(36));
        assert(uuid_text(b) =~= rb.take(36));
        lemma_uuid_text_injective(a, b);
    }
}

/// The directory of the shared task files.
pub struct JsonRepository {
    base_path: String,
}

/// The file of the task with global id `id` under `base`.
pub open spec fn task_file(base: Seq<char>, id: u128) -> Seq<char> {
    join(join(base, uuid_text(id).take(2)), uuid_text(id) + ".json"@)
}

impl JsonRepository {
    /// The shared task files under `path`.
    pub fn new(path: &str) -> (r: JsonRepository)
        ensures
            r.base_view() == path@,
    {
        JsonRepository { base_path: String::from_str(path) }
    }

    /// The directory of the files.
    pub closed spec fn base_view(&self) -> Seq<char> {
        self.base_path@
    }

    /// The directory of the files.
    pub fn base_path(&self) -> (r: &str)
        ensures
            r@ == self.base_view(),
    {
        self.base_path.as_str()
    }

    /// The file of the task with global id `global_id`: under the directory
    /// named by the first two characters of the id's text, the id's text
    /// with `.json` after it.
    pub fn task_path(&self, global_id: u128) -> (r: String)
        ensures
            r@ == task_file(self.base_view(), global_id),
    {
        let text = uuid_string(global_id);
        let cs = chars_of(text.as_str());
        let mut head: Vec<char> = Vec::new();
        head.push(cs[0]);
        head.push(cs[1]);
        assert(head@ =~= uuid_text(global_id).take(2));
        let prefix = string_of(&head);
        let dir = join_path(self.base_path.as_str(), prefix.as_str());
        let mut file = text.clone();
        file.append(".json");
        join_path(dir.as_str(), file.as_str())
    }
}

} // verus!
