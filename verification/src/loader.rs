//! The text of a manifest file: where its payload stands, and what the
//! payload holds once the escapes of its quoting are undone.

use crate::error::{Error, ErrorView, FailedManifestHydration};
use crate::text::{chars_of, matches_at, string_of};
use vstd::prelude::*;
use vstd::string::StringExecFns;

verus! {

/// White space as a manifest file may hold it around the payload's name.
pub open spec fn is_space(c: char) -> bool {
    c == ' ' || c == '\r' || c == '\n'
}

/// The position behind the white space that starts at `i`.
pub open spec fn space_end(s: Seq<char>, i: int) -> int
    decreases s.len() - i,
{
    if 0 <= i < s.len() && is_space(s[i]) {
        space_end(s, i + 1)
    } else {
        i
    }
}

/// Whether `word` stands in `s` at position `i`.
pub open spec fn word_at(s: Seq<char>, i: int, word: Seq<char>) -> bool {
    0 <= i && i + word.len() <= s.len() && s.subrange(i, i + word.len()) == word
}

/// Where the payload starts if the words `const RAW_RUNTIME_STATE = '`
/// stand at `i`, with any white space between them but some behind
/// `const`.
pub open spec fn state_marker_end(s: Seq<char>, i: int) -> Option<int> {
    let name = space_end(s, i + "const"@.len());
    let sign = space_end(s, name + "RAW_RUNTIME_STATE"@.len());
    let quote = space_end(s, sign + 1);
    if word_at(s, i, "const"@) && name > i + "const"@.len() && word_at(
        s,
        name,
        "RAW_RUNTIME_STATE"@,
    ) && word_at(s, sign, seq!['=']) && word_at(s, quote, seq!['\'']) {
        Some(quote + 1)
    } else {
        None
    }
}

/// Where the payload starts if the words `hydrateRuntimeState(JSON.parse('`
/// stand at `i`.
pub open spec fn call_marker_end(s: Seq<char>, i: int) -> Option<int> {
    if word_at(s, i, "hydrateRuntimeState(JSON.parse('"@) {
        Some(i + "hydrateRuntimeState(JSON.parse('"@.len())
    } else {
        None
    }
}

/// Where the payload starts if one of the two markers stands at `i`.
pub open spec fn marker_end(s: Seq<char>, i: int) -> Option<int> {
    match state_marker_end(s, i) {
        Some(end) => Some(end),
        None => call_marker_end(s, i),
    }
}

/// Where the payload starts behind the first marker at or behind `i`.
pub open spec fn payload_start(s: Seq<char>, i: int) -> Option<int>
    decreases s.len() - i,
{
    if i < 0 || i >= s.len() {
        None
    } else {
        match marker_end(s, i) {
            Some(end) => Some(end),
            None => payload_start(s, i + 1),
        }
    }
}

/// The payload that starts at `i`: it runs to the first quote that no
/// backslash escapes. A backslash escapes the one character behind it and
/// is itself left out.
pub open spec fn payload_from(s: Seq<char>, i: int, escaped: bool) -> Seq<char>
    decreases s.len() - i,
{
    if i < 0 || i >= s.len() {
        Seq::<char>::empty()
    } else if s[i] == '\'' && !escaped {
        Seq::<char>::empty()
    } else if s[i] == '\\' && !escaped {
        payload_from(s, i + 1, true)
    } else {
        seq![s[i]] + payload_from(s, i + 1, false)
    }
}

/// The payload of a manifest file, if the file has a marker.
pub open spec fn payload(content: Seq<char>) -> Option<Seq<char>> {
    match payload_start(content, 0) {
        Some(start) => Some(payload_from(content, start, false)),
        None => None,
    }
}

/// The text that tells that a manifest file has no payload.
pub open spec fn no_payload_message() -> Seq<char> {
    "We failed to locate the PnP data payload inside its manifest file. Did you manually edit the file?"@
}

fn skip_space(s: &Vec<char>, from: usize) -> (r: usize)
    requires
        from <= s.len(),
    ensures
        r as int == space_end(s@, from as int),
        from <= r <= s.len(),
{
    let mut i: usize = from;
    while i < s.len() && (s[i] == ' ' || s[i] == '\r' || s[i] == '\n')
        invariant
            from <= i <= s.len(),
            space_end(s@, from as int) == space_end(s@, i as int),
        decreases s.len() - i,
    {
        i = i + 1;
    }
    i
}

fn state_marker(s: &Vec<char>, i: usize) -> (r: Option<usize>)
    requires
        i < s.len(),
    ensures
        match r {
            Some(end) => state_marker_end(s@, i as int) == Some(end as int) && end <= s.len(),
            None => state_marker_end(s@, i as int) is None,
        },
{
    let keyword = chars_of("const");
    let name = chars_of("RAW_RUNTIME_STATE");
    if !matches_at(s, i, &keyword) {
        return None;
    }
    let at = skip_space(s, i + keyword.len());
    if at == i + keyword.len() || !matches_at(s, at, &name) {
        return None;
    }
    let sign = skip_space(s, at + name.len());
    if sign >= s.len() || s[sign] != '=' {
        assert(!word_at(s@, sign as int, seq!['='])) by {
            if word_at(s@, sign as int, seq!['=']) {
                assert(s@.subrange(sign as int, sign + 1)[0] == '=');
            }
        }
        return None;
    }
    assert(s@.subrange(sign as int, sign + 1) =~= seq!['=']);
    let quote = skip_space(s, sign + 1);
    if quote >= s.len() || s[quote] != '\'' {
        assert(!word_at(s@, quote as int, seq!['\''])) by {
            if word_at(s@, quote as int, seq!['\'']) {
                assert(s@.subrange(quote as int, quote + 1)[0] == '\'');
            }
        }
        return None;
    }
    assert(s@.subrange(quote as int, quote + 1) =~= seq!['\'']);
    Some(quote + 1)
}

fn find_payload(s: &Vec<char>) -> (r: Option<usize>)
    ensures
        match r {
            Some(start) => payload_start(s@, 0) == Some(start as int) && start <= s.len(),
            None => payload_start(s@, 0) is None,
        },
{
    let call = chars_of("hydrateRuntimeState(JSON.parse('");
    let mut i: usize = 0;
    while i < s.len()
        invariant
            i <= s.len(),
            call@ == "hydrateRuntimeState(JSON.parse('"@,
            payload_start(s@, 0) == payload_start(s@, i as int),
        decreases s.len() - i,
    {
        match state_marker(s, i) {
            Some(end) => {
                return Some(end);
            },
            None => {},
        }
        if matches_at(s, i, &call) {
            return Some(i + call.len());
        }
        i = i + 1;
    }
    None
}

fn read_payload(s: &Vec<char>, start: usize) -> (r: Vec<char>)
    requires
        start <= s.len(),
    ensures
        r@ == payload_from(s@, start as int, false),
{
    let mut out: Vec<char> = Vec::new();
    let mut escaped = false;
    let mut i: usize = start;
    loop
        invariant
            start <= i <= s.len(),
            out@ + payload_from(s@, i as int, escaped) == payload_from(s@, start as int, false),
        decreases s.len() - i,
    {
        if i >= s.len() {
            assert(out@ + Seq::<char>::empty() =~= out@);
            return out;
        }
        let c = s[i];
        if c == '\'' && !escaped {
            assert(out@ + Seq::<char>::empty() =~= out@);
            return out;
        } else if c == '\\' && !escaped {
            escaped = true;
        } else {
            let ghost rest = payload_from(s@, i + 1, false);
            escaped = false;
            out.push(c);
            assert(out@ + rest =~= out@.drop_last() + (seq![c] + rest));
        }
        i = i + 1;
    }
}

/// A failure of hydration with the given text.
pub fn hydration_failure(message: &str, manifest_path: &str) -> (e: Error)
    ensures
        e@ == (ErrorView::FailedManifestHydration { message: message@, manifest_path: manifest_path@ }),
{
    let mut text = String::new();
    text.append(message);
    assert(text@ =~= message@);
    let mut path = String::new();
    path.append(manifest_path);
    assert(path@ =~= manifest_path@);
    Error::FailedManifestHydration(
        Box::new(FailedManifestHydration { message: text, manifest_path: path }),
    )
}

/// The text that tells why a manifest file could not be read.
pub open spec fn unreadable_message(cause: Seq<char>) -> Seq<char> {
    "We failed to read the content of the manifest.\n\nOriginal error: "@ + cause
}

/// The text that tells why the payload of a manifest file is no manifest.
pub open spec fn unparsable_message(cause: Seq<char>) -> Seq<char> {
    "We failed to parse the PnP data payload as proper JSON; Did you manually edit the file?\n\nOriginal error: "@
        + cause
}

/// The failure for a manifest file that could not be read, for the reason
/// `cause`.
pub fn unreadable_manifest(cause: &str, manifest_path: &str) -> (e: Error)
    ensures
        e@ == (ErrorView::FailedManifestHydration {
            message: unreadable_message(cause@),
            manifest_path: manifest_path@,
        }),
{
    let mut text = String::new();
    text.append("We failed to read the content of the manifest.\n\nOriginal error: ");
    text.append(cause);
    assert(text@ =~= unreadable_message(cause@));
    hydration_failure(text.as_str(), manifest_path)
}

/// The failure for a payload that is no manifest, for the reason `cause`.
pub fn unparsable_manifest(cause: &str, manifest_path: &str) -> (e: Error)
    ensures
        e@ == (ErrorView::FailedManifestHydration {
            message: unparsable_message(cause@),
            manifest_path: manifest_path@,
        }),
{
    let mut text = String::new();
    text.append(
        "We failed to parse the PnP data payload as proper JSON; Did you manually edit the file?\n\nOriginal error: ",
    );
    text.append(cause);
    assert(text@ =~= unparsable_message(cause@));
    hydration_failure(text.as_str(), manifest_path)
}

/// Takes the payload out of the text of the manifest file at
/// `manifest_path`: what stands between the quote of the first marker and
/// the next quote that no backslash escapes, with the escapes undone.
pub fn extract_manifest_payload(content: &str, manifest_path: &str) -> (r: Result<String, Error>)
    ensures
        match r {
            Ok(text) => payload(content@) == Some(text@),
            Err(e) => payload(content@) is None && e@ == (ErrorView::FailedManifestHydration {
                message: no_payload_message(),
                manifest_path: manifest_path@,
            }),
        },
{
    let s = chars_of(content);
    match find_payload(&s) {
        Some(start) => Ok(string_of(&read_payload(&s, start))),
        None => Err(
            hydration_failure(
                "We failed to locate the PnP data payload inside its manifest file. Did you manually edit the file?",
                manifest_path,
            ),
        ),
    }
}

} // verus!
