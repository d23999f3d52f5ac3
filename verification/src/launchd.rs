//! What the registration with the per-user launch manager computes: where the
//! service description lies, what it says, and how the manager's answers read.
//! Running the manager and writing the file are left to the program.

use crate::text::{chars_of, slice_text, split, trim, trim_bounds};
use vstd::prelude::*;

verus! {

/// The label under which the service is registered.
pub const LABEL: &'static str = "com.github.kawaz.ssh-agent-router";

/// Whether `pattern` stands somewhere in `text`.
pub open spec fn contains_text(text: Seq<char>, pattern: Seq<char>) -> bool {
    exists|i: int|
        0 <= i <= text.len() - pattern.len() && #[trigger] text.subrange(i, i + pattern.len())
            == pattern
}

/// `dir` and the relative path `name` as one path: an empty `dir` gives `name`
/// alone, and a slash is put between the two unless `dir` ends with one.
pub open spec fn joined(dir: Seq<char>, name: Seq<char>) -> Seq<char> {
    if dir.len() == 0 {
        name
    } else if dir.last() == '/' {
        dir + name
    } else {
        dir + seq!['/'] + name
    }
}

/// The text that stands before the first `sep` in `text`, or all of `text`
/// where it holds none.
pub open spec fn first_field(text: Seq<char>, sep: char) -> Seq<char> {
    split(text, sep)[0]
}

/// The process identifier that the manager's listing of the service shows:
/// the first tab-separated field of its first line, without the white space
/// around it. `None` where the listing is empty.
pub open spec fn listed_pid(listing: Seq<char>) -> Option<Seq<char>> {
    if listing.len() == 0 {
        None
    } else {
        Some(trim(first_field(first_field(listing, '\n'), '\t')))
    }
}

/// The status of the service, from whether its description is in place and
/// what the manager lists of it (`None` where the manager does not know it).
pub open spec fn status_text(registered: bool, listing: Option<Seq<char>>) -> Seq<char> {
    if !registered {
        "Not registered"@
    } else {
        match listing {
            None => "Registered (not loaded)"@,
            Some(text) => match listed_pid(text) {
                None => "Registered"@,
                Some(pid) => if pid == seq!['-'] {
                    "Registered (not running)"@
                } else {
                    "Running (PID: "@ + pid + ")"@
                },
            },
        }
    }
}

/// The first piece of a split is what stands before the first separator.
proof fn lemma_first_field(text: Seq<char>, sep: char, n: int)
    requires
        0 <= n <= text.len(),
        forall|k: int| 0 <= k < n ==> text[k] != sep,
        n < text.len() ==> text[n] == sep,
    ensures
        first_field(text, sep) == text.take(n),
        split(text, sep).len() >= 1,
    decreases text.len(),
{
    if text.len() == 0 {
        assert(text.take(n) =~= Seq::<char>::empty());
    } else {
        let front = text.drop_last();
        let before = split(front, sep);
        if n == text.len() {
            lemma_first_field(front, sep, n - 1);
            assert(before.len() >= 1);
            if before.len() == 1 {
                assert(front.take(n - 1).push(text.last()) =~= text.take(n));
            } else {
                assert(false) by {
                    lemma_split_count(front, sep);
                }
            }
        } else {
            lemma_first_field(front, sep, n);
            assert(front.take(n) =~= text.take(n));
            if text.last() != sep {
                assert(front[n] == sep);
                lemma_split_count(front, sep);
                assert(before.len() >= 2);
            }
        }
    }
}

/// A text without separators is one piece, and one with a separator is
/// more than one.
proof fn lemma_split_count(text: Seq<char>, sep: char)
    ensures
        split(text, sep).len() >= 1,
        (forall|k: int| 0 <= k < text.len() ==> text[k] != sep) ==> split(text, sep).len() == 1,
        (exists|k: int| 0 <= k < text.len() && text[k] == sep) ==> split(text, sep).len() >= 2,
    decreases text.len(),
{
    if text.len() > 0 {
        let front = text.drop_last();
        lemma_split_count(front, sep);
        if exists|k: int| 0 <= k < text.len() && text[k] == sep {
            let k = choose|k: int| 0 <= k < text.len() && text[k] == sep;
            if k < front.len() {
                assert(front[k] == sep);
            }
        }
        if forall|k: int| 0 <= k < text.len() ==> text[k] != sep {
            assert forall|k: int| 0 <= k < front.len() implies front[k] != sep by {
                assert(text[k] != sep);
            }
        }
    }
}

/// Where the first `sep` stands among the characters from `from` up to `to`,
/// or `to` where none does.
fn find_char(chars: &Vec<char>, from: usize, to: usize, sep: char) -> (at: usize)
    requires
        from <= to <= chars@.len(),
    ensures
        from <= at <= to,
        chars@.subrange(from as int, at as int) == first_field(
            chars@.subrange(from as int, to as int),
            sep,
        ),
{
    let mut at: usize = from;
    while at < to && chars[at] != sep
        invariant
            from <= at <= to <= chars@.len(),
            forall|k: int| from <= k < at ==> chars@[k] != sep,
        decreases to - at,
    {
        at = at + 1;
    }
    proof {
        let text = chars@.subrange(from as int, to as int);
        lemma_first_field(text, sep, at - from);
        assert(text.take(at - from) =~= chars@.subrange(from as int, at as int));
    }
    at
}

/// Whether `pattern` stands somewhere in `text`.
pub fn contains(text: &str, pattern: &str) -> (found: bool)
    ensures
        found == contains_text(text@, pattern@),
{
    let t: Vec<char> = chars_of(text);
    let p: Vec<char> = chars_of(pattern);
    let mut i: usize = 0;
    while i <= t.len() && t.len() - i >= p.len()
        invariant
            t@ == text@,
            p@ == pattern@,
            forall|k: int| 0 <= k < i ==> #[trigger] t@.subrange(k, k + p@.len()) != p@,
        decreases t@.len() + 1 - i,
    {
        let mut j: usize = 0;
        while j < p.len() && t[i + j] == p[j]
            invariant
                i + p@.len() <= t@.len() <= usize::MAX,
                j <= p@.len(),
                forall|k: int| 0 <= k < j ==> t@[i + k] == p@[k],
            decreases p@.len() - j,
        {
            j = j + 1;
        }
        if j == p.len() {
            assert(t@.subrange(i as int, i + p@.len()) =~= p@);
            return true;
        }
        assert(t@.subrange(i as int, i + p@.len())[j as int] != p@[j as int]);
        i = i + 1;
    }
    false
}

/// Whether the manager's error output says that it does not know the
/// service.
pub fn is_service_missing(stderr: &str) -> (missing: bool)
    ensures
        missing == contains_text(stderr@, "Could not find specified service"@),
{
    contains(stderr, "Could not find specified service")
}

/// The path of the service description, under the home directory `home`.
pub fn plist_path(home: &str) -> (path: String)
    ensures
        path@ == joined(
            joined(home@, "Library/LaunchAgents"@),
            LABEL@ + ".plist"@,
        ),
{
    let dir: String = join(home, "Library/LaunchAgents");
    let mut name: String = String::from_str(LABEL);
    name.append(".plist");
    join(dir.as_str(), name.as_str())
}

/// `dir` and the relative path `name` as one path.
pub fn join(dir: &str, name: &str) -> (path: String)
    ensures
        path@ == joined(dir@, name@),
{
    let chars: Vec<char> = chars_of(dir);
    let mut path: String = String::from_str(dir);
    if chars.len() == 0 {
        assert(path@ + name@ =~= name@);
    } else if chars[chars.len() - 1] != '/' {
        proof {
            reveal_strlit("/");
            assert("/"@ =~= seq!['/']);
        }
        path.append("/");
    }
    path.append(name);
    path
}

/// The service description for the program at `exe_path`, which the manager
/// restarts when the file at `config_path` changes.
pub fn generate_plist(exe_path: &str, config_path: &str) -> (plist: String)
    ensures
        plist@ == PLIST_HEAD@ + LABEL@ + PLIST_PROGRAM@ + exe_path@ + PLIST_OPTIONS@ + config_path@
            + PLIST_TAIL@,
{
    let mut plist: String = String::from_str(PLIST_HEAD);
    plist.append(LABEL);
    plist.append(PLIST_PROGRAM);
    plist.append(exe_path);
    plist.append(PLIST_OPTIONS);
    plist.append(config_path);
    plist.append(PLIST_TAIL);
    plist
}

/// The status of the service in words, from whether its description is in
/// place and what the manager lists of it (`None` where the manager does not
/// know the service).
pub fn status(registered: bool, listing: Option<&str>) -> (text: String)
    ensures
        text@ == status_text(
            registered,
            match listing {
                Some(l) => Some(l@),
                None => None,
            },
        ),
{
    if !registered {
        return String::from_str("Not registered");
    }
    let listing: &str = match listing {
        Some(l) => l,
        None => { return String::from_str("Registered (not loaded)"); },
    };
    let chars: Vec<char> = chars_of(listing);
    if chars.len() == 0 {
        return String::from_str("Registered");
    }
    assert(chars@.subrange(0, chars@.len() as int) =~= listing@);
    let line_end: usize = find_char(&chars, 0, chars.len(), '\n');
    let field_end: usize = find_char(&chars, 0, line_end, '\t');
    let (a, b): (usize, usize) = trim_bounds(&chars, 0, field_end);
    let pid: String = slice_text(listing, a, b);
    if b - a == 1 && chars[a] == '-' {
        assert(pid@ =~= seq!['-']);
        return String::from_str("Registered (not running)");
    }
    assert(pid@ != seq!['-']) by {
        if pid@ == seq!['-'] {
            assert(pid@.len() == 1);
            assert(pid@[0] == '-');
        }
    }
    let mut text: String = String::from_str("Running (PID: ");
    text.append(pid.as_str());
    text.append(")");
    text
}

/// The service description up to the label.
pub const PLIST_HEAD: &'static str = r#"<?xml version="1.0" encoding="UTF-8"?>
<!DOCTYPE plist PUBLIC "-//Apple//DTD PLIST 1.0//EN" "http://www.apple.com/DTDs/PropertyList-1.0.dtd">
<plist version="1.0">
<dict>
    <key>Label</key>
    <string>"#;

/// The service description between the label and the program's path.
pub const PLIST_PROGRAM: &'static str = r#"</string>
    <key>ProgramArguments</key>
    <array>
        <string>"#;

/// The service description between the program's path and the watched path.
pub const PLIST_OPTIONS: &'static str = r#"</string>
    </array>
    <key>RunAtLoad</key>
    <true/>
    <key>KeepAlive</key>
    <true/>
    <key>StandardOutPath</key>
    <string>/tmp/ssh-agent-router.log</string>
    <key>StandardErrorPath</key>
    <string>/tmp/ssh-agent-router.err</string>
    <key>EnvironmentVariables</key>
    <dict>
        <key>SSH_AUTH_SOCK</key>
        <string>/tmp/ssh-agent.sock</string>
    </dict>
    <key>WatchPaths</key>
    <array>
        <string>"#;

/// The service description after the watched path.
pub const PLIST_TAIL: &'static str = r#"</string>
    </array>
</dict>
</plist>
"#;

} // verus!
