use vstd::prelude::*;

verus! {

/// Relies on dirs::home_dir for the user's home directory, converted
/// to text; the result depends on the environment, so nothing more is
/// promised of it.
#[verifier::external_body]
fn home_dir_string() -> (r: Option<String>) {
    dirs::home_dir().and_then(|p| p.into_os_string().into_string().ok())
}

/// Resolves the storage directory from a given home directory: the
/// notes folder under the home's documents, rooted in the working
/// directory when no home is known.
pub fn journal_dir_of(home: Option<&str>) -> (r: String)
    ensures
        match home {
            Some(h) => r@ == h@ + "/Documents/notes"@,
            None => r@ == "./Documents/notes"@,
        },
{
    let mut r: String = match home {
        Some(h) => h.to_owned(),
        None => ".".to_owned(),
    };
    r.append("/Documents/notes");
    proof {
        reveal_strlit(".");
        reveal_strlit("/Documents/notes");
        reveal_strlit("./Documents/notes");
        assert("."@ + "/Documents/notes"@ =~= "./Documents/notes"@);
    }
    r
}

/// Resolves the configuration location from a given home directory:
/// the dotfile directory and the config file inside it.
pub fn config_path_of(home: Option<&str>) -> (r: (String, String))
    ensures
        match home {
            Some(h) => r.0@ == h@ + "/.termjournal"@,
            None => r.0@ == "./.termjournal"@,
        },
        r.1@ == r.0@ + "/config.txt"@,
{
    let mut dir: String = match home {
        Some(h) => h.to_owned(),
        None => ".".to_owned(),
    };
    dir.append("/.termjournal");
    proof {
        reveal_strlit(".");
        reveal_strlit("/.termjournal");
        reveal_strlit("./.termjournal");
        assert("."@ + "/.termjournal"@ =~= "./.termjournal"@);
    }
    let mut file = dir.clone();
    file.append("/config.txt");
    (dir, file)
}

/// Resolves the storage directory against the environment's home
/// directory.
pub fn get_journal_dir() -> (r: String)
    ensures
        exists|h: Seq<char>| r@ == h + "/Documents/notes"@,
{
    let home = home_dir_string();
    match home {
        Some(h) => journal_dir_of(Some(h.as_str())),
        None => {
            let r = journal_dir_of(None);
            proof {
                reveal_strlit(".");
                reveal_strlit("/Documents/notes");
                reveal_strlit("./Documents/notes");
                assert(r@ == "."@ + "/Documents/notes"@);
            }
            r
        },
    }
}

/// Resolves the configuration location against the environment's home
/// directory. The caller creates the directory before reading or
/// writing the file.
pub fn get_config_path() -> (r: (String, String))
    ensures
        exists|h: Seq<char>| r.0@ == h + "/.termjournal"@,
        r.1@ == r.0@ + "/config.txt"@,
{
    let home = home_dir_string();
    match home {
        Some(h) => config_path_of(Some(h.as_str())),
        None => {
            let r = config_path_of(None);
            proof {
                reveal_strlit(".");
                reveal_strlit("/.termjournal");
                reveal_strlit("./.termjournal");
                assert(r.0@ == "."@ + "/.termjournal"@);
            }
            r
        },
    }
}

/// A character the configuration loader treats as blank space.
pub open spec fn is_space_char(c: char) -> bool {
    c == ' ' || c == '\t' || c == '\n' || c == '\r'
}

/// Text that holds nothing but blank space.
pub open spec fn is_blank(s: Seq<char>) -> bool {
    forall|i: int| 0 <= i < s.len() ==> is_space_char(#[trigger] s[i])
}

/// The text with its leading blank space removed.
pub open spec fn trim_start_spec(s: Seq<char>) -> Seq<char>
    decreases s.len(),
{
    if s.len() > 0 && is_space_char(s[0]) {
        trim_start_spec(s.skip(1))
    } else {
        s
    }
}

/// The text with its trailing blank space removed.
pub open spec fn trim_end_spec(s: Seq<char>) -> Seq<char>
    decreases s.len(),
{
    if s.len() > 0 && is_space_char(s.last()) {
        trim_end_spec(s.drop_last())
    } else {
        s
    }
}

/// The text with blank space removed from both ends.
pub open spec fn trimmed_of(s: Seq<char>) -> Seq<char> {
    trim_end_spec(trim_start_spec(s))
}

/// Trimming from the start removes exactly the blank prefix.
proof fn lemma_trim_start_at(s: Seq<char>, lo: int)
    requires
        0 <= lo <= s.len(),
        forall|j: int| 0 <= j < lo ==> is_space_char(#[trigger] s[j]),
        lo == s.len() || !is_space_char(s[lo]),
    ensures
        trim_start_spec(s) == s.skip(lo),
    decreases lo,
{
    if lo == 0 {
        assert(s.skip(0) =~= s);
    } else {
        lemma_trim_start_at(s.skip(1), lo - 1);
        assert(s.skip(1).skip(lo - 1) =~= s.skip(lo));
    }
}

/// Trimming from the end removes exactly the blank suffix.
proof fn lemma_trim_end_at(s: Seq<char>, hi: int)
    requires
        0 <= hi < s.len(),
        !is_space_char(s[hi]),
        forall|j: int| hi < j < s.len() ==> is_space_char(#[trigger] s[j]),
    ensures
        trim_end_spec(s) == s.take(hi + 1),
    decreases s.len(),
{
    if hi == s.len() - 1 {
        assert(s.take(hi + 1) =~= s);
    } else {
        lemma_trim_end_at(s.drop_last(), hi);
        assert(s.drop_last().take(hi + 1) =~= s.take(hi + 1));
    }
}

/// Finds the first non-blank position, or the length when the text is
/// blank throughout.
fn first_non_blank(s: &str) -> (lo: usize)
    ensures
        lo <= s@.len(),
        forall|j: int| 0 <= j < lo ==> is_space_char(#[trigger] s@[j]),
        lo < s@.len() ==> !is_space_char(s@[lo as int]),
        lo == s@.len() ==> is_blank(s@),
{
    let n: usize = s.unicode_len();
    let mut lo: usize = 0;
    while lo < n
        invariant
            lo <= n,
            n == s@.len(),
            forall|j: int| 0 <= j < lo ==> is_space_char(#[trigger] s@[j]),
        decreases n - lo,
    {
        let c: char = s.get_char(lo);
        if !(c == ' ' || c == '\t' || c == '\n' || c == '\r') {
            return lo;
        }
        lo = lo + 1;
    }
    lo
}

/// Finds the last non-blank position, given one is known to exist.
fn last_non_blank(s: &str, lo: usize) -> (hi: usize)
    requires
        lo < s@.len(),
        !is_space_char(s@[lo as int]),
    ensures
        lo <= hi < s@.len(),
        !is_space_char(s@[hi as int]),
        forall|j: int| hi < j < s@.len() ==> is_space_char(#[trigger] s@[j]),
{
    let n: usize = s.unicode_len();
    let mut hi: usize = n - 1;
    while hi > lo
        invariant
            lo <= hi < n,
            n == s@.len(),
            lo < n,
            !is_space_char(s@[lo as int]),
            forall|j: int| hi < j < n ==> is_space_char(#[trigger] s@[j]),
        decreases hi,
    {
        let c: char = s.get_char(hi);
        if !(c == ' ' || c == '\t' || c == '\n' || c == '\r') {
            return hi;
        }
        hi = hi - 1;
    }
    hi
}

/// Decides the editor program from the config file's contents: the
/// entire trimmed contents when anything non-blank stands in them,
/// and the default editor when the file is absent or blank.
pub fn get_editor(contents: Option<&str>) -> (r: String)
    ensures
        match contents {
            Some(s) => if is_blank(s@) {
                r@ == "nvim"@
            } else {
                r@ == trimmed_of(s@)
            },
            None => r@ == "nvim"@,
        },
{
    match contents {
        Some(s) => {
            let n: usize = s.unicode_len();
            let lo: usize = first_non_blank(s);
            if lo == n {
                return "nvim".to_owned();
            }
            let hi: usize = last_non_blank(s, lo);
            let t: &str = s.substring_char(lo, hi + 1);
            proof {
                assert(!is_blank(s@));
                lemma_trim_start_at(s@, lo as int);
                let u = s@.skip(lo as int);
                assert(u[(hi - lo) as int] == s@[hi as int]);
                assert forall|j: int| (hi - lo) < j < u.len() implies is_space_char(
                    #[trigger] u[j],
                ) by {
                    assert(u[j] == s@[j + lo]);
                }
                lemma_trim_end_at(u, (hi - lo) as int);
                assert(u.take(hi - lo + 1) =~= s@.subrange(lo as int, hi + 1));
            }
            t.to_owned()
        },
        None => "nvim".to_owned(),
    }
}

} // verus!
