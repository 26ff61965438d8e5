//! Where the data of a repository is kept, and the statements that keep it.

pub mod ops;
pub mod schema;

use vstd::prelude::*;
use vstd::utf8::{encode_scalar, encode_utf8, is_ascii_chars};

use crate::store::schema::SCHEMA_DDL;
use crate::text::{
    from_chars, law_trim, lemma_trim_around, lemma_trim_by, texts, to_chars, trim_bounds, trim_by,
};

verus! {

/// Whether Unicode counts `c`, a character beyond ASCII, as a letter or a number, as
/// `char::is_alphanumeric` decides it.
pub uninterp spec fn unicode_alphanumeric(c: char) -> bool;

/// Whether `c` is one of the ASCII letters and digits.
pub open spec fn ascii_alphanumeric(c: char) -> bool {
    ||| '0' <= c <= '9'
    ||| 'A' <= c <= 'Z'
    ||| 'a' <= c <= 'z'
}

/// Whether `c` is a letter or a number.
pub open spec fn alphanumeric(c: char) -> bool {
    if c <= '\u{7f}' {
        ascii_alphanumeric(c)
    } else {
        unicode_alphanumeric(c)
    }
}

/// Calls `char::is_alphanumeric`. Of the ASCII characters, the letters and digits and
/// no others are alphanumeric; beyond ASCII the result is named by
/// [`unicode_alphanumeric`].
#[verifier::external_body]
fn is_alphanumeric(c: char) -> (res: bool)
    ensures
        c <= '\u{7f}' ==> res == ascii_alphanumeric(c),
        !(c <= '\u{7f}') ==> res == unicode_alphanumeric(c),
{
    c.is_alphanumeric()
}

/// The longest name of a repository, in bytes.
pub const NAME_BYTES: usize = 64;

/// `path` with an underscore for each character that is not alphanumeric.
pub open spec fn underscored(path: Seq<char>) -> Seq<char> {
    Seq::new(
        path.len(),
        |i: int|
            if alphanumeric(path[i]) {
                path[i]
            } else {
                '_'
            },
    )
}

/// The underscored path without the underscores at either end.
pub open spec fn full_name(path: Seq<char>) -> Seq<char> {
    trim_by(underscored(path), |c: char| c == '_')
}

/// The longest end of `s` that takes no more bytes than a name may have.
pub open spec fn last_bytes(s: Seq<char>) -> Seq<char>
    decreases s.len(),
{
    if s.len() == 0 || encode_utf8(s).len() <= NAME_BYTES {
        s
    } else {
        last_bytes(s.drop_first())
    }
}

/// The directory name of `path`: the end of its full name.
pub open spec fn repo_name(path: Seq<char>) -> Seq<char> {
    last_bytes(full_name(path))
}

/// The parts of the path of a repository's database, from the home directory down.
pub open spec fn db_path_spec(home_dir: Seq<char>, repo_path: Seq<char>) -> Seq<Seq<char>> {
    seq![home_dir, ".vibervn"@, "context-engine"@, "surreal"@, repo_name(repo_path)]
}

proof fn lemma_chars_within_bytes(s: Seq<char>)
    ensures
        s.len() <= encode_utf8(s).len(),
    decreases s.len(),
{
    if s.len() > 0 {
        lemma_chars_within_bytes(s.drop_first());
    }
}

/// A later start never takes more bytes.
proof fn lemma_skip_bytes(s: Seq<char>, i: int, j: int)
    requires
        0 <= i <= j <= s.len(),
    ensures
        encode_utf8(s.skip(j)).len() <= encode_utf8(s.skip(i)).len(),
    decreases j - i,
{
    if i < j {
        lemma_skip_bytes(s, i + 1, j);
        assert(s.skip(i).drop_first() =~= s.skip(i + 1));
    }
}

/// Where a start leaves few enough bytes and none before it does, the text is cut
/// there.
proof fn lemma_last_bytes_at(s: Seq<char>, i: int)
    requires
        0 <= i <= s.len(),
        encode_utf8(s.skip(i)).len() <= NAME_BYTES,
        i > 0 ==> encode_utf8(s.skip(i - 1)).len() > NAME_BYTES,
    ensures
        last_bytes(s) == s.skip(i),
    decreases i,
{
    if i == 0 {
        assert(s.skip(0) =~= s);
    } else {
        let rest = s.drop_first();
        assert(s.skip(0) =~= s);
        lemma_skip_bytes(s, 0, i - 1);
        assert(rest.skip(i - 1) =~= s.skip(i));
        if i > 1 {
            assert(rest.skip(i - 2) =~= s.skip(i - 1));
        }
        lemma_last_bytes_at(rest, i - 1);
    }
}

proof fn lemma_last_bytes(s: Seq<char>)
    ensures
        encode_utf8(last_bytes(s)).len() <= NAME_BYTES,
        last_bytes(s).len() <= s.len(),
        last_bytes(s) == s.skip(s.len() - last_bytes(s).len()),
        last_bytes(s).len() < s.len() ==> encode_utf8(
            s.skip(s.len() - last_bytes(s).len() - 1),
        ).len() > NAME_BYTES,
    decreases s.len(),
{
    if s.len() == 0 || encode_utf8(s).len() <= NAME_BYTES {
        assert(s.skip(0) =~= s);
    } else {
        let rest = s.drop_first();
        let n = last_bytes(s).len();
        lemma_last_bytes(rest);
        assert(rest.skip(rest.len() - n) =~= s.skip(s.len() - n));
        if n < rest.len() {
            assert(rest.skip(rest.len() - n - 1) =~= s.skip(s.len() - n - 1));
        } else {
            assert(s.skip(0) =~= s);
        }
    }
}

/// Every path has a name of at most 64 characters, and at most as many bytes. It is
/// the longest end of the full name that short, and so the whole of it when that is
/// short enough.
pub proof fn law_repo_name_is_short(path: Seq<char>, end: Seq<char>)
    ensures
        repo_name(path).len() <= encode_utf8(repo_name(path)).len() <= NAME_BYTES,
        repo_name(path).is_suffix_of(full_name(path)),
        end.is_suffix_of(full_name(path)) && encode_utf8(end).len() <= NAME_BYTES
            ==> end.is_suffix_of(repo_name(path)),
        encode_utf8(full_name(path)).len() <= NAME_BYTES ==> repo_name(path) == full_name(path),
{
    let full = full_name(path);
    let name = repo_name(path);
    let cut = full.len() - name.len();
    lemma_last_bytes(full);
    lemma_chars_within_bytes(name);
    assert(full.subrange(cut, full.len() as int) =~= full.skip(cut));
    if end.is_suffix_of(full) && encode_utf8(end).len() <= NAME_BYTES {
        let start = full.len() - end.len();
        assert(full.subrange(start, full.len() as int) =~= full.skip(start));
        if start < cut {
            lemma_skip_bytes(full, start, cut - 1);
        }
        assert(name.subrange(name.len() - end.len(), name.len() as int) =~= end);
    }
}

/// Every character of a name is alphanumeric or an underscore, and a name never
/// ends with an underscore.
pub proof fn law_repo_name_is_plain(path: Seq<char>)
    ensures
        forall|i: int|
            0 <= i < repo_name(path).len() ==> alphanumeric(#[trigger] repo_name(path)[i])
                || repo_name(path)[i] == '_',
        repo_name(path).len() > 0 ==> repo_name(path).last() != '_',
{
    let drop = |c: char| c == '_';
    let full = full_name(path);
    let name = repo_name(path);
    lemma_last_bytes(full);
    lemma_trim_by(underscored(path), drop);
    let (i, j) = choose|i: int, j: int|
        {
            &&& 0 <= i <= j <= underscored(path).len()
            &&& full == #[trigger] underscored(path).subrange(i, j)
            &&& forall|k: int|
                (0 <= k < i || j <= k < underscored(path).len()) ==> drop(
                    #[trigger] underscored(path)[k],
                )
        };
    let cut = full.len() - name.len();
    assert forall|k: int| 0 <= k < name.len() implies alphanumeric(#[trigger] name[k]) || name[k]
        == '_' by {
        assert(name[k] == full[cut + k]);
        assert(full[cut + k] == underscored(path)[i + cut + k]);
    }
    if name.len() > 0 {
        assert(name.last() == full.last());
        assert(!drop(full.last()));
    }
}

/// A path has an empty name exactly where it holds no letter and no number.
pub proof fn law_repo_name_is_empty_iff_nothing_is_kept(path: Seq<char>)
    ensures
        repo_name(path).len() == 0 <==> forall|i: int|
            0 <= i < path.len() ==> !alphanumeric(#[trigger] path[i]),
{
    let drop = |c: char| c == '_';
    let under = underscored(path);
    let full = full_name(path);
    lemma_last_bytes(full);
    lemma_trim_by(under, drop);
    let (i, j) = choose|i: int, j: int|
        {
            &&& 0 <= i <= j <= under.len()
            &&& full == #[trigger] under.subrange(i, j)
            &&& forall|k: int| (0 <= k < i || j <= k < under.len()) ==> drop(#[trigger] under[k])
        };
    if full.len() == 0 {
        assert forall|k: int| 0 <= k < path.len() implies !alphanumeric(#[trigger] path[k]) by {
            assert(drop(under[k]));
            assert(!alphanumeric('_'));
        }
    } else {
        assert(full[0] == under[i]);
        assert(alphanumeric(path[i]));
        if repo_name(path).len() == 0 {
            let last = full.skip(full.len() - 1);
            assert(last.len() == 1);
            assert(last.drop_first() =~= Seq::<char>::empty());
            assert(encode_utf8(last.drop_first()).len() == 0);
            lemma_char_bytes(last[0]);
        }
    }
}

/// The name of an ASCII path is the last 64 characters of its full name, in which
/// the letters and digits stand as they are and an underscore stands for any other
/// character.
pub proof fn law_ascii_name(path: Seq<char>)
    requires
        is_ascii_chars(path),
    ensures
        underscored(path) == Seq::new(
            path.len(),
            |i: int|
                if ascii_alphanumeric(path[i]) {
                    path[i]
                } else {
                    '_'
                },
        ),
        repo_name(path) == if full_name(path).len() <= NAME_BYTES {
            full_name(path)
        } else {
            full_name(path).skip(full_name(path).len() - NAME_BYTES)
        },
{
    let drop = |c: char| c == '_';
    let under = underscored(path);
    let full = full_name(path);
    assert forall|k: int| 0 <= k < path.len() implies path[k] <= '\u{7f}' by {
        assert('\0' <= path[k] <= '\u{7f}');
    }
    assert(under =~= Seq::new(
        path.len(),
        |i: int|
            if ascii_alphanumeric(path[i]) {
                path[i]
            } else {
                '_'
            },
    ));
    lemma_trim_by(under, drop);
    let (i, j) = choose|i: int, j: int|
        {
            &&& 0 <= i <= j <= under.len()
            &&& full == #[trigger] under.subrange(i, j)
            &&& forall|k: int| (0 <= k < i || j <= k < under.len()) ==> drop(#[trigger] under[k])
        };
    assert forall|k: int| 0 <= k < full.len() implies '\0' <= #[trigger] full[k] <= '\u{7f}' by {
        assert(full[k] == under[i + k]);
        assert('\0' <= path[i + k] <= '\u{7f}');
    }
    let cut: int = if full.len() <= NAME_BYTES {
        0
    } else {
        full.len() - NAME_BYTES
    };
    vstd::utf8::is_ascii_chars_encode_utf8(full.skip(cut));
    if cut > 0 {
        vstd::utf8::is_ascii_chars_encode_utf8(full.skip(cut - 1));
    }
    lemma_last_bytes_at(full, cut);
    assert(full.skip(0) =~= full);
}

/// Characters that are not alphanumeric, such as separators, before or after a path
/// never change its name.
pub proof fn law_separators_around_change_nothing(a: Seq<char>, path: Seq<char>, b: Seq<char>)
    requires
        forall|i: int| 0 <= i < a.len() ==> !alphanumeric(#[trigger] a[i]),
        forall|i: int| 0 <= i < b.len() ==> !alphanumeric(#[trigger] b[i]),
    ensures
        repo_name(a + path + b) == repo_name(path),
{
    assert(underscored(a + path + b) =~= underscored(a) + underscored(path) + underscored(b));
    assert forall|i: int| 0 <= i < a.len() implies #[trigger] underscored(a)[i] == '_' by {
        assert(!alphanumeric(a[i]));
    }
    assert forall|i: int| 0 <= i < b.len() implies #[trigger] underscored(b)[i] == '_' by {
        assert(!alphanumeric(b[i]));
    }
    lemma_trim_around(underscored(a), underscored(path), underscored(b), |c: char| c == '_');
}

/// A character takes one to four bytes.
proof fn lemma_char_bytes(c: char)
    ensures
        1 <= encode_scalar(c as u32).len() <= 4,
        encode_scalar(c as u32).len() == if c <= '\u{7f}' {
            1nat
        } else if c <= '\u{7ff}' {
            2
        } else if c <= '\u{ffff}' {
            3
        } else {
            4
        },
{
    vstd::utf8::char_is_scalar(c);
}

/// How many bytes a character takes.
fn char_bytes(c: char) -> (res: usize)
    ensures
        res == encode_scalar(c as u32).len(),
        1 <= res <= 4,
{
    proof {
        lemma_char_bytes(c);
    }
    if c <= '\u{7f}' {
        1
    } else if c <= '\u{7ff}' {
        2
    } else if c <= '\u{ffff}' {
        3
    } else {
        4
    }
}

/// Sanitize a repo path to a safe directory name (max 64 chars).
pub fn sanitize_repo_name(repo_path: &str) -> (res: String)
    ensures
        res@ == repo_name(repo_path@),
{
    let path = to_chars(repo_path);
    let mut chars: Vec<char> = Vec::new();
    let mut cut: Vec<bool> = Vec::new();
    let mut i: usize = 0;
    while i < path.len()
        invariant
            i <= path@.len(),
            chars@.len() == i,
            cut@.len() == i,
            forall|k: int| 0 <= k < i ==> #[trigger] chars@[k] == underscored(path@)[k],
            forall|k: int| 0 <= k < i ==> #[trigger] cut@[k] == (chars@[k] == '_'),
        decreases path@.len() - i,
    {
        let c = if is_alphanumeric(path[i]) {
            path[i]
        } else {
            '_'
        };
        chars.push(c);
        cut.push(c == '_');
        i += 1;
    }
    assert(chars@ =~= underscored(path@));
    let (lo, hi) = trim_bounds(&chars, &cut, Ghost(|c: char| c == '_'));
    let ghost full = full_name(repo_path@);
    let mut start: usize = hi;
    let mut bytes: usize = 0;
    assert(full.skip(full.len() as int) =~= Seq::<char>::empty());
    while start > lo && bytes + char_bytes(chars[start - 1]) <= NAME_BYTES
        invariant
            lo <= start <= hi <= chars@.len(),
            full == chars@.subrange(lo as int, hi as int),
            bytes == encode_utf8(full.skip(start - lo)).len(),
            bytes <= NAME_BYTES,
        decreases start,
    {
        let ghost before = full.skip(start - lo);
        start -= 1;
        bytes += char_bytes(chars[start]);
        assert(full.skip(start - lo).drop_first() =~= before);
        assert(full.skip(start - lo)[0] == chars@[start as int]);
    }
    proof {
        if start > lo {
            assert(full.skip(start - lo - 1).drop_first() =~= full.skip(start - lo));
            assert(full.skip(start - lo - 1)[0] == chars@[start - 1]);
        }
        lemma_last_bytes_at(full, start - lo);
        assert(chars@.subrange(start as int, hi as int) =~= full.skip(start - lo));
    }
    from_chars(&chars, start, hi)
}

/// The parts of the path of the database directory for a given repo, to be
/// joined in order.
pub fn db_path(home_dir: &str, repo_path: &str) -> (res: Vec<String>)
    ensures
        texts(res@) == db_path_spec(home_dir@, repo_path@),
{
    let name = sanitize_repo_name(repo_path);
    let res = vec![
        home_dir.to_owned(),
        ".vibervn".to_owned(),
        "context-engine".to_owned(),
        "surreal".to_owned(),
        name,
    ];
    assert(texts(res@) =~= db_path_spec(home_dir@, repo_path@));
    res
}

/// How to open the database of a repository.
#[derive(Debug, Clone)]
pub struct OpenDb {
    /// The parts of the directory to create, to be joined in order.
    pub path: Vec<String>,
    pub namespace: String,
    pub database: String,
    /// The statements that make sure all tables and indexes exist.
    pub ddl: String,
}

/// How to open (or create) the database for the given repo.
pub fn open_db(home_dir: &str, repo_path: &str) -> (res: OpenDb)
    ensures
        texts(res.path@) == db_path_spec(home_dir@, repo_path@),
        res.namespace@ == "context_engine"@,
        res.database@ == repo_name(repo_path@),
        res.ddl@ == SCHEMA_DDL@,
{
    OpenDb {
        path: db_path(home_dir, repo_path),
        namespace: "context_engine".to_owned(),
        database: sanitize_repo_name(repo_path),
        ddl: SCHEMA_DDL.to_owned(),
    }
}

/// The full name of a path is one part of it, with an underscore for each character that
/// is not alphanumeric and every other character as it is; that part reaches from the
/// first alphanumeric character of the path to the last one.
pub proof fn law_full_name_is_part_of_the_path(path: Seq<char>, i: int, j: int)
    requires
        0 <= i <= j <= path.len(),
        forall|k: int| (0 <= k < i || j <= k < path.len()) ==> !alphanumeric(#[trigger] path[k]),
        i < j ==> alphanumeric(path[i]) && alphanumeric(path[j - 1]),
    ensures
        full_name(path).len() == j - i,
        forall|k: int|
            0 <= k < j - i ==> #[trigger] full_name(path)[k] == if alphanumeric(path[i + k]) {
                path[i + k]
            } else {
                '_'
            },
{
    let drop = |c: char| c == '_';
    let under = underscored(path);
    assert(!alphanumeric('_'));
    assert forall|k: int| (0 <= k < i || j <= k < under.len()) implies drop(
        #[trigger] under[k],
    ) by {
        assert(!alphanumeric(path[k]));
    }
    law_trim(under, drop, i, j);
}

/// A name takes at most 64 bytes, and one more character of the full name would take more.
pub proof fn law_name_takes_what_fits(path: Seq<char>)
    ensures
        ({
            let full = full_name(path);
            let n = full.len() - repo_name(path).len();
            &&& 0 <= n <= full.len()
            &&& repo_name(path) == full.skip(n)
            &&& encode_utf8(full.skip(n)).len() <= 64
            &&& n > 0 ==> encode_utf8(full.skip(n - 1)).len() > 64
        }),
{
    lemma_last_bytes(full_name(path));
}

/// Of ASCII characters, just the letters and digits are alphanumeric.
pub proof fn law_ascii_alphanumeric(c: char)
    requires
        c <= '\u{7f}',
    ensures
        alphanumeric(c) <==> '0' <= c <= '9' || 'A' <= c <= 'Z' || 'a' <= c <= 'z',
{
}

/// A database lies under the home directory, in the directory with the repository's name.
pub proof fn law_database_directory(home_dir: Seq<char>, repo_path: Seq<char>)
    ensures
        db_path_spec(home_dir, repo_path).len() == 5,
        db_path_spec(home_dir, repo_path)[0] == home_dir,
        db_path_spec(home_dir, repo_path)[1] == ".vibervn"@,
        db_path_spec(home_dir, repo_path)[2] == "context-engine"@,
        db_path_spec(home_dir, repo_path)[3] == "surreal"@,
        db_path_spec(home_dir, repo_path)[4] == repo_name(repo_path),
{
}

} // verus!
