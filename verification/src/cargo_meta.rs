use vstd::prelude::*;
use vstd::string::StringExecFns;

use crate::catalog::nonempty_lines;
use crate::catalog::split_nonempty_lines;
use crate::catalog::str_eq;

verus! {

// ---------------------------------------------------------------------------
// What the json crate reads out of cargo's messages, as named results: each
// is a function of the line text alone, computed by one trusted wrapper.
// ---------------------------------------------------------------------------

#[verifier::external_type_specification]
#[verifier::external_body]
pub struct ExJsonError(json::Error);

/// The text is JSON the json crate accepts (it refuses malformed input and
/// input nested beyond its depth limit).
pub uninterp spec fn json_parses(s: Seq<char>) -> bool;

/// The `reason` member of the message, when it is a string.
pub uninterp spec fn reason_of(s: Seq<char>) -> Option<Seq<char>>;

/// The `profile.test` member of the message, a missing or non-boolean
/// member standing for false.
pub uninterp spec fn profile_test_of(s: Seq<char>) -> bool;

/// The `filenames` members of the message as strings, `None` when one of
/// them is not a string; a missing or non-array member gives no names.
pub uninterp spec fn filenames_of(s: Seq<char>) -> Option<Seq<Seq<char>>>;

/// The `workspace_root` member of the metadata, when it is a string.
pub uninterp spec fn workspace_root_of(s: Seq<char>) -> Option<Seq<char>>;

/// Relies on json::parse, JsonValue's `&str` indexing and JsonValue::as_str:
/// the `reason` member, read as a string; a function of the text alone.
#[verifier::external_body]
fn read_reason(line: &str) -> (r: Result<Option<String>, json::Error>)
    ensures
        (r is Ok) == json_parses(line@),
        r matches Ok(o) ==> match o {
            Some(t) => reason_of(line@) == Some(t@),
            None => reason_of(line@) is None,
        },
{
    json::parse(line).map(|v| v["reason"].as_str().map(|t| t.to_owned()))
}

/// Relies on json::parse, JsonValue's `&str` indexing and JsonValue::as_bool:
/// the `profile.test` member, missing or non-boolean standing for false; a
/// function of the text alone.
#[verifier::external_body]
fn read_profile_test(line: &str) -> (r: Result<bool, json::Error>)
    ensures
        (r is Ok) == json_parses(line@),
        r matches Ok(b) ==> b == profile_test_of(line@),
{
    json::parse(line).map(|v| v["profile"]["test"].as_bool().unwrap_or(false))
}

/// Relies on json::parse, JsonValue's `&str` indexing, JsonValue::members and
/// JsonValue::as_str: the `filenames` members as strings, `None` when one is
/// not a string (a missing or non-array member yields an empty list); a
/// function of the text alone.
#[verifier::external_body]
fn read_filenames(line: &str) -> (r: Result<Option<Vec<String>>, json::Error>)
    ensures
        (r is Ok) == json_parses(line@),
        r matches Ok(o) ==> match o {
            Some(v) => filenames_of(line@) == Some(v@.map_values(|t: String| t@)),
            None => filenames_of(line@) is None,
        },
{
    json::parse(line).map(|v| {
        v["filenames"].members().map(|m| m.as_str().map(|t| t.to_owned())).collect()
    })
}

/// Relies on json::parse, JsonValue's `&str` indexing and JsonValue::as_str:
/// the `workspace_root` member, read as a string; a function of the text
/// alone.
#[verifier::external_body]
fn read_workspace_root(s: &str) -> (r: Result<Option<String>, json::Error>)
    ensures
        (r is Ok) == json_parses(s@),
        r matches Ok(o) ==> match o {
            Some(t) => workspace_root_of(s@) == Some(t@),
            None => workspace_root_of(s@) is None,
        },
{
    json::parse(s).map(|v| v["workspace_root"].as_str().map(|t| t.to_owned()))
}

// ---------------------------------------------------------------------------
// The runner's reading of cargo's output.
// ---------------------------------------------------------------------------

/// Why cargo's output could not be used.
#[derive(Debug)]
pub enum MetadataError {
    /// A line was not JSON at all.
    InvalidJson,
    /// The metadata names no workspace root.
    MissingWorkspaceRoot,
    /// A compiler-artifact message lacked a string where one was expected.
    MalformedArtifactRecord,
}

/// `suffix` ends `s`.
pub open spec fn spec_ends_with(s: Seq<char>, suffix: Seq<char>) -> bool {
    s.len() >= suffix.len() && s.subrange(s.len() - suffix.len(), s.len() as int) == suffix
}

pub fn ends_with(s: &str, suffix: &str) -> (r: bool)
    ensures
        r == spec_ends_with(s@, suffix@),
{
    let n = s.unicode_len();
    let m = suffix.unicode_len();
    if n < m {
        return false;
    }
    let mut k: usize = 0;
    let mut matched = true;
    while k < m
        invariant
            n == s@.len(),
            m == suffix@.len(),
            m <= n,
            k <= m,
            matched <==> (forall|t: int| 0 <= t < k ==> s@[n - m + t] == suffix@[t]),
        decreases m - k,
    {
        let a = s.get_char(n - m + k);
        let b = suffix.get_char(k);
        matched = matched && (a == b);
        k += 1;
    }
    proof {
        let tail = s@.subrange(n - m, n as int);
        if matched {
            assert(tail =~= suffix@);
        } else {
            if tail == suffix@ {
                assert forall|t: int| 0 <= t < m implies s@[n - m + t] == suffix@[t] by {
                    assert(tail[t] == s@[n - m + t]);
                }
            }
        }
    }
    matched
}

/// Artifact files the runner keeps: everything but rlib archives and
/// debug-symbol bundles.
pub open spec fn spec_keep_artifact(name: Seq<char>) -> bool {
    !spec_ends_with(name, ".rlib"@) && !spec_ends_with(name, ".dSYM"@)
}

pub fn keep_artifact_file(name: &str) -> (r: bool)
    ensures
        r == spec_keep_artifact(name@),
{
    !ends_with(name, ".rlib") && !ends_with(name, ".dSYM")
}

/// A run needs at least one compiled test executable; none at all is the
/// fatal condition the caller aborts on.
pub fn executables_found(binaries: &Vec<String>) -> (r: bool)
    ensures
        r == (binaries@.len() > 0),
{
    binaries.len() > 0
}

/// Where the instrumentation writes the catalog, under a workspace root.
pub fn mutations_file_path(workspace_root: &str) -> (r: String)
    ensures
        r@ == workspace_root@ + "/target/mutagen/mutations.txt"@,
{
    let mut p = workspace_root.to_owned();
    p.append("/target/mutagen/mutations.txt");
    p
}

/// From `cargo metadata` output: where the mutation catalog lives — the
/// workspace root named by the metadata, extended by the catalog's fixed
/// location under it.
pub fn mutations_path_from_metadata(metadata_stdout: &str) -> (r: Result<String, MetadataError>)
    ensures
        (r is Ok) == (json_parses(metadata_stdout@) && workspace_root_of(metadata_stdout@)
            is Some),
        r matches Ok(p) ==> p@ == workspace_root_of(metadata_stdout@)->Some_0
            + "/target/mutagen/mutations.txt"@,
        r matches Err(e) ==> match e {
            MetadataError::InvalidJson => !json_parses(metadata_stdout@),
            MetadataError::MissingWorkspaceRoot => json_parses(metadata_stdout@)
                && workspace_root_of(metadata_stdout@) is None,
            MetadataError::MalformedArtifactRecord => false,
        },
{
    let root = match read_workspace_root(metadata_stdout) {
        Ok(Some(root)) => root,
        Ok(None) => {
            return Err(MetadataError::MissingWorkspaceRoot);
        },
        Err(_) => {
            return Err(MetadataError::InvalidJson);
        },
    };
    Ok(mutations_file_path(root.as_str()))
}

// ---------------------------------------------------------------------------
// The test binaries named by `cargo test --no-run --message-format=json`.
// ---------------------------------------------------------------------------

/// The message announces a compiled test: a compiler artifact built under
/// the test profile.
pub open spec fn spec_is_test_artifact(line: Seq<char>) -> bool {
    reason_of(line) == Some("compiler-artifact"@) && profile_test_of(line)
}

/// The line yields everything the runner needs: it is JSON, its reason is a
/// string, and a test artifact names its files as strings.
pub open spec fn spec_line_usable(line: Seq<char>) -> bool {
    &&& json_parses(line)
    &&& reason_of(line) is Some
    &&& (spec_is_test_artifact(line) ==> filenames_of(line) is Some)
}

/// The names in `names` that pass the artifact filter, in order.
pub open spec fn spec_kept(names: Seq<Seq<char>>) -> Seq<Seq<char>>
    decreases names.len(),
{
    if names.len() == 0 {
        Seq::empty()
    } else {
        spec_kept(names.drop_last()) + if spec_keep_artifact(names.last()) {
            seq![names.last()]
        } else {
            Seq::empty()
        }
    }
}

/// The test binaries one message line contributes, in stream order.
pub open spec fn spec_line_binaries(line: Seq<char>) -> Seq<Seq<char>> {
    if spec_is_test_artifact(line) {
        spec_kept(filenames_of(line)->Some_0)
    } else {
        Seq::empty()
    }
}

/// The test binaries of a whole message stream, in stream order.
pub open spec fn spec_binaries_of(lines: Seq<Seq<char>>) -> Seq<Seq<char>>
    decreases lines.len(),
{
    if lines.len() == 0 {
        Seq::empty()
    } else {
        spec_binaries_of(lines.drop_last()) + spec_line_binaries(lines.last())
    }
}

/// From `cargo test --no-run --message-format=json` output: exactly the
/// `filenames` of compiler-artifact messages built under the test profile,
/// in stream order, excluding rlib archives and debug-symbol bundles.
pub fn test_binaries_from_output(stdout: &str) -> (r: Result<Vec<String>, MetadataError>)
    ensures
        (r is Ok) == (forall|k: int|
            0 <= k < nonempty_lines(stdout@).len() ==> spec_line_usable(
                #[trigger] nonempty_lines(stdout@)[k],
            )),
        r matches Ok(files) ==> files@.map_values(|f: String| f@) == spec_binaries_of(
            nonempty_lines(stdout@),
        ),
        r matches Err(e) ==> match e {
            MetadataError::InvalidJson => exists|k: int|
                0 <= k < nonempty_lines(stdout@).len() && !json_parses(
                    #[trigger] nonempty_lines(stdout@)[k],
                ),
            MetadataError::MalformedArtifactRecord => exists|k: int|
                0 <= k < nonempty_lines(stdout@).len() && json_parses(
                    #[trigger] nonempty_lines(stdout@)[k],
                ) && (reason_of(nonempty_lines(stdout@)[k]) is None || (spec_is_test_artifact(
                    nonempty_lines(stdout@)[k],
                ) && filenames_of(nonempty_lines(stdout@)[k]) is None)),
            MetadataError::MissingWorkspaceRoot => false,
        },
{
    let lines = split_nonempty_lines(stdout);
    let ghost lviews = nonempty_lines(stdout@);
    let mut out: Vec<String> = Vec::new();
    proof {
        assert(lviews.take(0) =~= Seq::<Seq<char>>::empty());
        assert(out@.map_values(|f: String| f@) =~= Seq::<Seq<char>>::empty());
    }
    let mut i: usize = 0;
    while i < lines.len()
        invariant
            i <= lines@.len(),
            lviews == nonempty_lines(stdout@),
            lines@.len() == lviews.len(),
            forall|k: int| 0 <= k < lines@.len() ==> lines@[k]@ == lviews[k],
            forall|k: int| 0 <= k < i ==> spec_line_usable(#[trigger] lviews[k]),
            out@.map_values(|f: String| f@) == spec_binaries_of(lviews.take(i as int)),
        decreases lines@.len() - i,
    {
        let line: &str = lines[i];
        let ghost lv = lviews[i as int];
        let reason = match read_reason(line) {
            Ok(Some(reason)) => reason,
            Ok(None) => {
                proof {
                    assert(!spec_line_usable(lviews[i as int]));
                }
                return Err(MetadataError::MalformedArtifactRecord);
            },
            Err(_) => {
                proof {
                    assert(!spec_line_usable(lviews[i as int]));
                }
                return Err(MetadataError::InvalidJson);
            },
        };
        let is_artifact = str_eq(reason.as_str(), "compiler-artifact");
        let profile_test = match read_profile_test(line) {
            Ok(b) => b,
            Err(_) => {
                // Unreachable: the line already parsed once.
                return Err(MetadataError::InvalidJson);
            },
        };
        proof {
            assert((is_artifact && profile_test) == spec_is_test_artifact(lv));
        }
        if is_artifact && profile_test {
            let names = match read_filenames(line) {
                Ok(Some(names)) => names,
                Ok(None) => {
                    proof {
                        assert(!spec_line_usable(lviews[i as int]));
                    }
                    return Err(MetadataError::MalformedArtifactRecord);
                },
                Err(_) => {
                    // Unreachable: the line already parsed once.
                    return Err(MetadataError::InvalidJson);
                },
            };
            let ghost fns = filenames_of(lv)->Some_0;
            proof {
                assert(names@.map_values(|t: String| t@) == fns);
                assert(fns.take(0) =~= Seq::<Seq<char>>::empty());
                assert(spec_binaries_of(lviews.take(i as int)) + Seq::<Seq<char>>::empty()
                    =~= spec_binaries_of(lviews.take(i as int)));
            }
            let mut j: usize = 0;
            while j < names.len()
                invariant
                    j <= names@.len(),
                    names@.map_values(|t: String| t@) == fns,
                    out@.map_values(|f: String| f@) == spec_binaries_of(lviews.take(i as int))
                        + spec_kept(fns.take(j as int)),
                decreases names@.len() - j,
            {
                let ghost pre_kept = spec_kept(fns.take(j as int));
                let ghost ext = fns.take(j + 1);
                proof {
                    assert(ext.drop_last() =~= fns.take(j as int));
                    assert(ext.last() == fns[j as int]);
                    assert(fns[j as int] == names@[j as int]@);
                }
                let name = &names[j];
                if keep_artifact_file(name.as_str()) {
                    let ghost pre_out = out@;
                    out.push(name.clone());
                    proof {
                        assert(out@ == pre_out.push(names@[j as int]));
                        assert(out@.map_values(|f: String| f@) =~= pre_out.map_values(
                            |f: String| f@,
                        ).push(names@[j as int]@));
                        assert(spec_kept(ext) =~= pre_kept.push(names@[j as int]@));
                        assert(out@.map_values(|f: String| f@) =~= spec_binaries_of(
                            lviews.take(i as int),
                        ) + spec_kept(ext));
                    }
                } else {
                    proof {
                        assert(spec_kept(ext) =~= pre_kept);
                    }
                }
                j += 1;
            }
            proof {
                assert(fns.take(names@.len() as int) =~= fns);
                assert(spec_line_binaries(lv) == spec_kept(fns));
            }
        } else {
            proof {
                assert(spec_line_binaries(lv) =~= Seq::<Seq<char>>::empty());
                assert(spec_binaries_of(lviews.take(i as int)) + spec_line_binaries(lv)
                    =~= spec_binaries_of(lviews.take(i as int)));
            }
        }
        proof {
            assert(spec_line_usable(lv));
            assert(lviews.take(i + 1).drop_last() =~= lviews.take(i as int));
            assert(lviews.take(i + 1).last() == lv);
            assert(spec_binaries_of(lviews.take(i + 1)) == spec_binaries_of(
                lviews.take(i as int),
            ) + spec_line_binaries(lv));
        }
        i += 1;
    }
    proof {
        assert(lviews.take(lviews.len() as int) =~= lviews);
    }
    Ok(out)
}

} // verus!
