use vstd::prelude::*;

use crate::errors::ServerError;
use crate::semver::version_valid;
use crate::semver::parse_version_major;
use crate::textutil::count_char;
use crate::textutil::last_index_of;
use crate::textutil::lemma_char_absent;
use crate::textutil::lemma_last_index_of_props;
use crate::textutil::spec_trim;
use crate::textutil::str_count_char;
use crate::textutil::str_rfind_char;
use crate::textutil::str_substring;
use crate::textutil::str_trim;
use vstd::string::StrSliceExecFns;

verus! {

/// What parsing a `name@range` specifier yields: the part before the last
/// `@` is the name and the part after it is the range, both trimmed. With no
/// `@` the name is empty and the whole specifier is the range; with three or
/// more `@` the specifier is rejected.
pub open spec fn spec_parse_specifier(s: Seq<char>) -> Option<(Seq<char>, Seq<char>)> {
    if count_char(s, '@') >= 3 {
        None
    } else if count_char(s, '@') == 0 {
        Some((Seq::empty(), spec_trim(s)))
    } else {
        let i = last_index_of(s, '@');
        Some((spec_trim(s.take(i)), spec_trim(s.skip(i + 1))))
    }
}

/// Split a `name@range` specifier at its last `@` without checking that the
/// range part is well-formed semver.
pub fn parse_package_specifier_no_validation(package_specifier: &str) -> (r: Result<
    (String, String),
    ServerError,
>)
    ensures
        match r {
            Ok(parts) => spec_parse_specifier(package_specifier@) == Some(
                (parts.0@, parts.1@),
            ),
            Err(e) => spec_parse_specifier(package_specifier@) is None
                && e is InvalidPackageSpecifier,
        },
{
    let at_count = str_count_char(package_specifier, '@');
    if at_count >= 3 {
        return Err(ServerError::InvalidPackageSpecifier);
    }
    if at_count == 0 {
        let version = str_trim(package_specifier);
        return Ok((String::new(), version));
    }
    match str_rfind_char(package_specifier, '@') {
        Some(i) => {
            let n = package_specifier.unicode_len();
            proof {
                lemma_last_index_of_props(package_specifier@, '@');
            }
            let name_part = str_substring(package_specifier, 0, i);
            let version_part = str_substring(package_specifier, i + 1, n);
            let name = str_trim(name_part.as_str());
            let version = str_trim(version_part.as_str());
            proof {
                assert(package_specifier@.take(i as int) == name_part@);
                assert(package_specifier@.skip(i + 1) == version_part@);
            }
            Ok((name, version))
        },
        None => {
            proof {
                lemma_last_index_of_props(package_specifier@, '@');
                lemma_char_absent(package_specifier@, '@');
                assert(false);
            }
            Err(ServerError::InvalidPackageSpecifier)
        },
    }
}

/// Split a `name@version` specifier and insist that the version part is a
/// well-formed exact semver version.
pub fn parse_package_specifier(package_specifier: &str) -> (r: Result<
    (String, String),
    ServerError,
>)
    ensures
        match r {
            Ok(parts) => spec_parse_specifier(package_specifier@) == Some((parts.0@, parts.1@))
                && version_valid(parts.1@),
            Err(e) => match e {
                ServerError::InvalidPackageSpecifier => spec_parse_specifier(
                    package_specifier@,
                ) is None,
                ServerError::InvalidSemver => match spec_parse_specifier(package_specifier@) {
                    Some(parts) => !version_valid(parts.1),
                    None => false,
                },
                _ => false,
            },
        },
{
    let parsed = parse_package_specifier_no_validation(package_specifier)?;
    let (name, version) = parsed;
    match parse_version_major(version.as_str()) {
        Some(_) => Ok((name, version)),
        None => Err(ServerError::InvalidSemver),
    }
}

} // verus!
