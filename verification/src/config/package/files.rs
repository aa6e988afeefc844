//! Size limits of table files, packages and manifests.

use crate::config::error::{
    ConfigError, ConfigErrorKind, ConfigLocation, ErrorSite, LocationView, reports, site_with,
};
use crate::config::generated::{spec_table_files, table_files};
use crate::config::text::{owned, push_str};
use vstd::prelude::*;

verus! {

/// Maximum byte size of one binary table file (64 MiB).
pub const MAX_FILE_BYTES: u64 = 67108864;

/// Maximum combined byte size of all binary tables in one package (256 MiB).
pub const MAX_PACKAGE_BYTES: u64 = 268435456;

/// Maximum byte size of the JSON package manifest (1 MiB).
pub const MAX_MANIFEST_BYTES: u64 = 1048576;

/// The location of package-wide size failures.
pub open spec fn package_location() -> LocationView {
    LocationView::Operation("configuration package"@)
}

/// The failure of adding `size` bytes to a package `total`: an overflowing sum,
/// else a sum above [`MAX_PACKAGE_BYTES`].
pub open spec fn package_size_failure(total: int, size: int) -> ErrorSite {
    site_with(ConfigErrorKind::Capacity, package_location(), if total + size > u64::MAX {
        "combined file size overflow"@
    } else {
        "combined file size exceeds limit 268435456"@
    })
}

/// Adds a file of `size` bytes to the running package `total`.
///
/// An overflowing sum leaves `total` unchanged; otherwise `total` becomes the sum,
/// and a sum above [`MAX_PACKAGE_BYTES`] is reported after the update.
pub fn add_package_size(total: &mut u64, size: u64) -> (res: Result<(), ConfigError>)
    ensures
        old(total) + size > u64::MAX ==> *final(total) == *old(total) && (res matches Err(e) && reports(e@, package_size_failure(*old(total) as int, size as int))),
        old(total) + size <= u64::MAX ==> *final(total) == old(total) + size,
        old(total) + size <= u64::MAX && old(total) + size > MAX_PACKAGE_BYTES ==> (res matches Err(e) && reports(e@, package_size_failure(*old(total) as int, size as int))),
        old(total) + size <= MAX_PACKAGE_BYTES ==> res is Ok,
{
    match total.checked_add(size) {
        None => Err(ConfigError::new(ConfigErrorKind::Capacity, ConfigLocation::Operation("configuration package"), "combined file size overflow")),
        Some(sum) => {
            *total = sum;
            if sum > MAX_PACKAGE_BYTES {
                Err(ConfigError::new(ConfigErrorKind::Capacity, ConfigLocation::Operation("configuration package"), "combined file size exceeds limit 268435456"))
            } else {
                Ok(())
            }
        },
    }
}

/// The size limit of the next table file read after `total` bytes: the file limit,
/// or what remains of the package limit when that is smaller.
pub fn next_file_limit(total: u64) -> (limit: u64)
    requires
        total <= MAX_PACKAGE_BYTES,
    ensures
        limit == if MAX_FILE_BYTES <= MAX_PACKAGE_BYTES - total { MAX_FILE_BYTES as int } else { MAX_PACKAGE_BYTES - total },
{
    let remaining = MAX_PACKAGE_BYTES - total;
    if MAX_FILE_BYTES <= remaining {
        MAX_FILE_BYTES
    } else {
        remaining
    }
}

/// The mathematical content of a [`PackageReader`].
pub struct PackageReaderView {
    pub total: u64,
    pub loaded: Seq<(Seq<char>, Seq<u8>)>,
}

/// Reads a package's table files one request at a time, without a manifest: each
/// expected table in order, within the file limit and what remains of the package
/// limit. The caller reads each requested file and hands its bytes back.
#[derive(Debug)]
pub struct PackageReader {
    total: u64,
    loaded: Vec<(String, Vec<u8>)>,
}

impl View for PackageReader {
    type V = PackageReaderView;

    closed spec fn view(&self) -> PackageReaderView {
        PackageReaderView { total: self.total, loaded: self.loaded.deep_view() }
    }
}

impl PackageReader {
    #[verifier::type_invariant]
    closed spec fn within_limits(self) -> bool {
        &&& self.total <= MAX_PACKAGE_BYTES
        &&& self.loaded@.len() <= spec_table_files().len()
    }

    /// A reader before any file.
    pub fn new() -> (r: Self)
        ensures
            r@.total == 0,
            r@.loaded.len() == 0,
    {
        let r = PackageReader { total: 0, loaded: Vec::new() };
        assert(r@.loaded =~= Seq::<(Seq<char>, Seq<u8>)>::empty());
        r
    }

    /// The next file to read, `table.bytes`, with its size limit; `None` once every
    /// expected table was read.
    pub fn next_request(&self) -> (r: Option<(String, u64)>)
        ensures
            self@.loaded.len() < spec_table_files().len() ==> (r matches Some((name, limit))
                && name@ == spec_table_files()[self@.loaded.len() as int] + ".bytes"@
                && limit == if MAX_FILE_BYTES <= MAX_PACKAGE_BYTES - self@.total { MAX_FILE_BYTES as int } else { MAX_PACKAGE_BYTES - self@.total }),
            self@.loaded.len() >= spec_table_files().len() ==> r is None,
    {
        proof {
            use_type_invariant(self);
        }
        let tables = table_files();
        let next = self.loaded.len();
        assert(self@.loaded.len() == self.loaded@.len());
        if next >= tables.len() {
            return None;
        }
        let mut name = owned(tables[next]);
        push_str(&mut name, ".bytes");
        Some((name, next_file_limit(self.total)))
    }

    /// Accepts the bytes of the requested file, adding them to the package total.
    pub fn accept(&mut self, bytes: Vec<u8>) -> (res: Result<(), ConfigError>)
        requires
            old(self)@.loaded.len() < spec_table_files().len(),
        ensures
            old(self)@.total + bytes@.len() <= MAX_PACKAGE_BYTES ==> res is Ok && final(self)@.total == old(self)@.total + bytes@.len()
                && final(self)@.loaded == old(self)@.loaded.push((spec_table_files()[old(self)@.loaded.len() as int], bytes@)),
            old(self)@.total + bytes@.len() > MAX_PACKAGE_BYTES ==> final(self)@ == old(self)@
                && (res matches Err(e) && reports(e@, package_size_failure(old(self)@.total as int, bytes@.len() as int))),
    {
        proof {
            use_type_invariant(&*self);
        }
        let tables = table_files();
        let next = self.loaded.len();
        let mut total = self.total;
        add_package_size(&mut total, bytes.len() as u64)?;
        let ghost before = self.loaded.deep_view();
        let ghost data = bytes@;
        let name = owned(tables[next]);
        assert(name@ == spec_table_files()[next as int]);
        assert(bytes.deep_view() =~= data);
        let mut loaded = Vec::new();
        std::mem::swap(&mut loaded, &mut self.loaded);
        loaded.push((name, bytes));
        self.loaded = loaded;
        self.total = total;
        assert(self.loaded@[next as int].1.deep_view() =~= data);
        assert(self.loaded.deep_view() =~= before.push((spec_table_files()[next as int], data)));
        Ok(())
    }

    /// The tables read, each with its table name (without the suffix) and bytes.
    pub fn finish(self) -> (files: Vec<(String, Vec<u8>)>)
        ensures
            files.deep_view() == self@.loaded,
    {
        self.loaded
    }
}

} // verus!
