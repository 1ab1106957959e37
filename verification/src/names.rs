//! Names and choices of the user: display names, labels, the mailbox and the
//! directory that receives.

use vstd::prelude::*;

use crate::front::Front;
use crate::text;

verus! {

/// The mailbox that is used where none is named.
pub const DEFAULT_MAILBOX: &'static str = "ws://127.0.0.1:8080/v1/ws";

/// Whether there is nothing but white space in `s`.
pub open spec fn is_blank(s: Seq<char>) -> bool {
    text::trimmed(s).len() == 0
}

/// Whether there is nothing but white space in `s`.
pub fn blank(s: &str) -> (r: bool)
    ensures
        r == is_blank(s@),
{
    let t = text::trim(s);
    proof {
        reveal_strlit("");
        assert(t@.len() == 0 <==> t@ =~= ""@);
    }
    text::same(t.as_str(), "")
}

/// The name `name` without white space around it; an error where nothing is left.
pub fn check_name(name: &str) -> (r: Result<String, String>)
    ensures
        r is Err <==> is_blank(name@),
        r matches Err(e) ==> e@ == "name must not be empty"@,
        r matches Ok(n) ==> n@ == text::trimmed(name@),
{
    if blank(name) {
        Err("name must not be empty".to_owned())
    } else {
        Ok(text::trim(name))
    }
}

/// Which display name is used.
#[derive(Debug)]
pub enum NameChoice {
    /// This one, which is also stored for later.
    Store(String),
    /// The one that is stored.
    Stored,
}

/// Chooses the display name: the given one, or else the stored one. A given name
/// must not be blank.
pub fn display_name_or(given: Option<String>) -> (r: Result<NameChoice, String>)
    ensures
        given is None <==> r matches Ok(NameChoice::Stored),
        r is Err <==> given is Some && is_blank(given->0@),
        r matches Err(e) ==> e@ == "name must not be empty"@,
        r matches Ok(NameChoice::Store(n)) ==> n@ == text::trimmed(given->0@),
{
    match given {
        None => Ok(NameChoice::Stored),
        Some(name) => match check_name(name.as_str()) {
            Ok(n) => Ok(NameChoice::Store(n)),
            Err(e) => Err(e),
        },
    }
}

/// `s` cut to at most `max` characters: where it is longer, an ellipsis takes the
/// place of the last one.
pub open spec fn truncated(s: Seq<char>, max: nat) -> Seq<char> {
    if s.len() <= max {
        s
    } else {
        s.take(if max == 0 {
            0
        } else {
            max - 1
        }) + "…"@
    }
}

/// `s` cut to at most `max` characters.
pub fn truncate(s: &str, max: usize) -> (r: String)
    ensures
        r@ == truncated(s@, max as nat),
{
    let cs = text::to_chars(s);
    if cs.len() <= max {
        text::from_chars(cs.as_slice())
    } else {
        let keep: usize = if max == 0 {
            0
        } else {
            max - 1
        };
        assert(cs@.subrange(0, keep as int) == s@.take(keep as int));
        let mut out = text::slice_text(cs.as_slice(), 0, keep);
        out.append("…");
        out
    }
}

/// What was cut is no longer than asked for, and is the text itself where that
/// fits.
pub proof fn law_truncated_fits(s: Seq<char>, max: nat)
    requires
        max > 0,
    ensures
        truncated(s, max).len() <= max,
        s.len() <= max ==> truncated(s, max) == s,
{
    reveal_strlit("…");
}

/// The mailbox that was asked for. On the desktop a blank field asks for none.
pub open spec fn asked_mailbox(front: Front, flag: Option<Seq<char>>) -> Option<Seq<char>> {
    match flag {
        Some(f) => if front == Front::Desktop && is_blank(f) {
            None
        } else {
            Some(f)
        },
        None => None,
    }
}

/// The mailbox: the one that was asked for, else the one in the environment, else
/// the default.
pub fn resolve_mailbox(front: Front, flag: Option<String>, environment: Option<String>) -> (r:
    String)
    ensures
        r@ == match asked_mailbox(front, text::opt_text(flag)) {
            Some(f) => f,
            None => match environment {
                Some(e) => e@,
                None => DEFAULT_MAILBOX@,
            },
        },
{
    if let Some(f) = flag {
        let skip = match front {
            Front::Desktop => blank(f.as_str()),
            Front::Terminal => false,
        };
        if !skip {
            return f;
        }
    }
    match environment {
        Some(e) => e,
        None => DEFAULT_MAILBOX.to_owned(),
    }
}

/// Where received files go.
#[derive(Debug)]
pub enum DirChoice {
    /// Into this directory.
    Given(String),
    /// Into the directory for downloads.
    Downloads,
}

/// Chooses the directory that receives: the given one, unless it is blank.
pub fn choose_dir(dir: Option<String>) -> (r: DirChoice)
    ensures
        r is Given <==> dir is Some && !is_blank(dir->0@),
        r matches DirChoice::Given(d) ==> Some(d) == dir,
{
    match dir {
        Some(d) => if blank(d.as_str()) {
            DirChoice::Downloads
        } else {
            DirChoice::Given(d)
        },
        None => DirChoice::Downloads,
    }
}

/// How a transfer is called: by its file name, or by the whole path where it has
/// none.
pub fn label(file_name: Option<String>, shown: String) -> (r: String)
    ensures
        r == match file_name {
            Some(n) => n,
            None => shown,
        },
{
    match file_name {
        Some(n) => n,
        None => shown,
    }
}

/// Whether there is something to send at the path `shown`.
pub fn check_path(exists: bool, shown: &str) -> (r: Result<(), String>)
    ensures
        r is Ok <==> exists,
        r matches Err(e) ==> e@ == "no such file or folder: "@ + shown@,
{
    if exists {
        Ok(())
    } else {
        let mut e = "no such file or folder: ".to_owned();
        e.append(shown);
        Err(e)
    }
}

/// A value of an inner command, or else that of the command around it.
pub fn prefer(inner: Option<String>, outer: Option<String>) -> (r: Option<String>)
    ensures
        r == if inner is Some {
            inner
        } else {
            outer
        },
{
    match inner {
        Some(v) => Some(v),
        None => outer,
    }
}

/// Trimming a name again changes nothing: a name that was stored is stored under
/// the same text when it is given again.
pub proof fn law_trimmed_again(s: Seq<char>)
    ensures
        text::trimmed(text::trimmed(s)) == text::trimmed(s),
{
    text::lemma_trimmed_edges(s);
}

/// A text is blank exactly where it is white space throughout.
pub proof fn law_blank_is_white_space(s: Seq<char>)
    ensures
        is_blank(s) <==> forall|i: int|
            0 <= i < s.len() ==> text::is_white_space(#[trigger] s[i]),
{
    text::law_white_space_is_trimmed_away(s);
}

/// What was cut begins as the text does, up to the last place, where an ellipsis stands.
pub proof fn law_truncated_begins_as_the_text(s: Seq<char>, max: nat)
    requires
        max > 0,
        s.len() > max,
    ensures
        truncated(s, max).len() == max,
        truncated(s, max).last() == '…',
        forall|i: int| 0 <= i < max - 1 ==> #[trigger] truncated(s, max)[i] == s[i],
{
    reveal_strlit("…");
}

/// A mailbox that was asked for is used as it was written; only on the desktop a blank
/// field asks for none.
pub proof fn law_asked_mailbox_is_used(front: Front, flag: Seq<char>)
    ensures
        asked_mailbox(front, None) is None,
        asked_mailbox(Front::Terminal, Some(flag)) == Some(flag),
        !is_blank(flag) ==> asked_mailbox(front, Some(flag)) == Some(flag),
        is_blank(flag) ==> asked_mailbox(Front::Desktop, Some(flag)) is None,
{
}

} // verus!
