//! Decoding of a loaded package into the configuration tables.

use super::error::{ConfigError, ConfigErrorKind, ConfigLocation, LocationView};
use super::generated::{LubanError, Tables, TableFailure, spec_load_tables};
use super::text::{owned, push_char, push_str};
use vstd::prelude::*;

verus! {

/// `file` inside `directory`, as `Path::join` forms it for a relative file name.
pub open spec fn join_path(directory: Seq<char>, file: Seq<char>) -> Seq<char> {
    if directory.len() == 0 {
        file
    } else if directory.last() == '/' {
        directory + file
    } else {
        directory + seq!['/'] + file
    }
}

/// The path of table `name`'s binary file inside `directory`.
pub open spec fn table_path(directory: Seq<char>, name: Seq<char>) -> Seq<char> {
    join_path(directory, name + seq!['.', 'b', 'y', 't', 'e', 's'])
}

/// Returns the path of table `name`'s binary file inside `directory`.
pub fn table_file_path(directory: &str, name: &str) -> (path: String)
    ensures
        path@ == table_path(directory@, name@),
{
    let mut file = owned(name);
    push_str(&mut file, ".bytes");
    proof {
        reveal_strlit(".bytes");
    }
    let mut path = owned(directory);
    let n = directory.unicode_len();
    if n == 0 {
        path = file;
    } else {
        let last = directory.get_char(n - 1);
        if last != '/' {
            push_char(&mut path, '/');
        }
        push_str(&mut path, file.as_str());
    }
    assert(path@ =~= table_path(directory@, name@));
    path
}

/// Decodes the package `files` (table name without suffix and file bytes) read
/// from `directory` into the expected tables.
///
/// Each table buffer is moved into its decoder. A malformed table is reported as a
/// decoding error at its file and byte offset; a missing table or duplicate row key
/// as a package error at its file.
pub fn load_tables(directory: &str, files: Vec<(String, Vec<u8>)>) -> (res: Result<Tables, ConfigError>)
    ensures
        match spec_load_tables(files.deep_view()) {
            Ok(v) => res matches Ok(t) && t.deep_view() == v,
            Err((name, failure)) => res matches Err(e) && match failure {
                TableFailure::Decode(at) => e@.kind == ConfigErrorKind::Decode && e@.location == (
                LocationView::File {
                    path: table_path(directory@, name),
                    field: None,
                    byte_offset: Some(at as usize),
                }),
                _ => e@.kind == ConfigErrorKind::Package && e@.location == (LocationView::File {
                    path: table_path(directory@, name),
                    field: None,
                    byte_offset: None,
                }),
            },
        },
{
    match Tables::new(files) {
        Ok(tables) => Ok(tables),
        Err(failure) => {
            let path = table_file_path(directory, failure.table);
            let location = ConfigLocation::file(path.as_str());
            let message = failure.error.to_text();
            match &failure.error {
                LubanError::Decode(error) => Err(
                    ConfigError::with_message(
                        ConfigErrorKind::Decode,
                        location.at_byte(error.offset()),
                        message,
                    ),
                ),
                _ => Err(ConfigError::with_message(ConfigErrorKind::Package, location, message)),
            }
        },
    }
}

} // verus!
