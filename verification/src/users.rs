//! The flat user file's line format: `username,password-hash,room-hash`.
//! Parsing a line and finding a user's record are the compute steps of the
//! credential endpoints; reading the file and hashing stay with the
//! surrounding application.

use vstd::prelude::*;

verus! {

/// One parsed line of the user file.
#[derive(Clone, Debug)]
pub struct UserRecord {
    pub username: String,
    pub password_hash: String,
    pub room_hash: String,
}

#[verifier::ext_equal]
pub struct RecordView {
    pub username: Seq<char>,
    pub password_hash: Seq<char>,
    pub room_hash: Seq<char>,
}

impl View for UserRecord {
    type V = RecordView;

    open spec fn view(&self) -> RecordView {
        RecordView {
            username: self.username@,
            password_hash: self.password_hash@,
            room_hash: self.room_hash@,
        }
    }
}

/// The first index at or after `from` holding a comma, or the length where
/// none follows.
pub open spec fn comma_at(s: Seq<char>, from: int) -> int
    decreases s.len() - from
        when 0 <= from <= s.len()
{
    if from >= s.len() {
        s.len() as int
    } else if s[from] == ',' {
        from
    } else {
        comma_at(s, from + 1)
    }
}

/// What a line of the user file parses to: the text before the first comma
/// is the username, the text between the first and second comma the
/// password hash, and everything after the second comma — commas included —
/// the room hash.  A line with fewer than two commas parses to nothing.
pub open spec fn parse_line_spec(s: Seq<char>) -> Option<RecordView> {
    let i = comma_at(s, 0);
    let j = comma_at(s, i + 1);
    if i < s.len() && j < s.len() {
        Some(
            RecordView {
                username: s.subrange(0, i),
                password_hash: s.subrange(i + 1, j),
                room_hash: s.subrange(j + 1, s.len() as int),
            },
        )
    } else {
        None
    }
}

/// The line parses and names `name`.
pub open spec fn line_has_user(s: Seq<char>, name: Seq<char>) -> bool {
    match parse_line_spec(s) {
        Some(rec) => rec.username == name,
        None => false,
    }
}

/// The index of the first comma at or after `from`, scanning characters.
fn find_comma(s: &str, from: usize, n: usize) -> (r: Option<usize>)
    requires
        from <= n,
        n == s@.len(),
    ensures
        match r {
            Some(i) => from <= i < n && i as int == comma_at(s@, from as int),
            None => comma_at(s@, from as int) == n as int,
        },
{
    let mut i = from;
    while i < n
        invariant
            from <= i <= n,
            n == s@.len(),
            comma_at(s@, from as int) == comma_at(s@, i as int),
        decreases n - i,
    {
        if s.get_char(i) == ',' {
            return Some(i);
        }
        i = i + 1;
    }
    None
}

/// Parse one line of the user file, exactly as `parse_line_spec` reads it.
pub fn parse_user_line(line: &String) -> (r: Option<UserRecord>)
    ensures
        match r {
            Some(rec) => parse_line_spec(line@) == Some(rec@),
            None => parse_line_spec(line@) is None,
        },
{
    let s = line.as_str();
    let n = s.unicode_len();
    let i = match find_comma(s, 0, n) {
        Some(i) => i,
        None => {
            return None;
        },
    };
    let j = match find_comma(s, i + 1, n) {
        Some(j) => j,
        None => {
            return None;
        },
    };
    let username = String::from_str(s.substring_char(0, i));
    let password_hash = String::from_str(s.substring_char(i + 1, j));
    let room_hash = String::from_str(s.substring_char(j + 1, n));
    let rec = UserRecord { username, password_hash, room_hash };
    proof {
        assert(parse_line_spec(line@) == Some(rec@));
    }
    Some(rec)
}

/// Find the record of `username` among the lines of the user file: the
/// first line that parses and names it wins; lines that do not parse are
/// skipped, exactly as the credential endpoints read the file.
pub fn find_user_record(lines: &Vec<String>, username: &String) -> (r: Option<UserRecord>)
    ensures
        match r {
            Some(rec) => exists|i: int|
                0 <= i < lines@.len() && #[trigger] line_has_user(lines@[i]@, username@)
                    && parse_line_spec(lines@[i]@) == Some(rec@) && (forall|k: int|
                    0 <= k < i ==> !line_has_user(lines@[k]@, username@)),
            None => forall|k: int|
                0 <= k < lines@.len() ==> !line_has_user(lines@[k]@, username@),
        },
{
    let mut i: usize = 0;
    while i < lines.len()
        invariant
            i <= lines@.len(),
            forall|k: int| 0 <= k < i ==> !line_has_user(lines@[k]@, username@),
        decreases lines@.len() - i,
    {
        match parse_user_line(&lines[i]) {
            Some(rec) => {
                if rec.username.eq(username) {
                    proof {
                        assert(line_has_user(lines@[i as int]@, username@));
                    }
                    return Some(rec);
                }
            },
            None => {},
        }
        i = i + 1;
    }
    None
}

/// Whether some line of the user file already names `username` — the
/// signup endpoint's duplicate check.
pub fn username_exists(lines: &Vec<String>, username: &String) -> (r: bool)
    ensures
        r == exists|i: int| 0 <= i < lines@.len() && #[trigger] line_has_user(lines@[i]@, username@),
{
    match find_user_record(lines, username) {
        Some(_) => true,
        None => false,
    }
}

/// Join a fresh record into one line of the user file.
pub fn format_user_line(username: &String, password_hash: &String, room_hash: &String) -> (r:
    String)
    ensures
        r@ == username@ + seq![','] + password_hash@ + seq![','] + room_hash@,
{
    let mut r = username.clone();
    r.append(",");
    r.append(password_hash.as_str());
    r.append(",");
    r.append(room_hash.as_str());
    proof {
        reveal_strlit(",");
        assert(","@ =~= seq![',']);
        assert(r@ =~= username@ + seq![','] + password_hash@ + seq![','] + room_hash@);
    }
    r
}

/// Law: a freshly formatted line parses back to exactly the record it was
/// made from, provided the username and password hash are comma-free (the
/// room hash may hold commas: it is everything after the second comma).
pub proof fn lemma_format_then_parse(
    username: Seq<char>,
    password_hash: Seq<char>,
    room_hash: Seq<char>,
)
    requires
        forall|k: int| 0 <= k < username.len() ==> username[k] != ',',
        forall|k: int| 0 <= k < password_hash.len() ==> password_hash[k] != ',',
    ensures
        parse_line_spec(username + seq![','] + password_hash + seq![','] + room_hash) == Some(
            RecordView { username, password_hash, room_hash },
        ),
{
    let s = username + seq![','] + password_hash + seq![','] + room_hash;
    let i = username.len() as int;
    let j = i + 1 + password_hash.len() as int;
    assert(s[i] == ',');
    assert(s[j] == ',');
    lemma_comma_free_prefix(s, 0, i);
    lemma_comma_free_prefix(s, i + 1, j);
    assert(s.subrange(0, i) =~= username);
    assert(s.subrange(i + 1, j) =~= password_hash);
    assert(s.subrange(j + 1, s.len() as int) =~= room_hash);
}

/// Where no comma sits in `[from, upto)` and one sits at `upto`, the first
/// comma at or after `from` is exactly `upto`.
proof fn lemma_comma_free_prefix(s: Seq<char>, from: int, upto: int)
    requires
        0 <= from <= upto < s.len(),
        forall|k: int| from <= k < upto ==> s[k] != ',',
        s[upto] == ',',
    ensures
        comma_at(s, from) == upto,
    decreases upto - from,
{
    if from < upto {
        lemma_comma_free_prefix(s, from + 1, upto);
    }
}

} // verus!
