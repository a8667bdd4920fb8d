use vstd::prelude::*;

verus! {

/// Where the pictures are kept.
#[derive(Debug, Clone, Copy, PartialEq, Eq, Structural)]
pub enum PictureStorerType {
    FILE,
    S3,
}

/// Keeps the pictures as files in a directory.
pub struct PictureFileStorer {
    save_path: String,
}

/// Keeps the pictures in a bucket of an object store.
pub struct PictureS3Storer {
    bucket: String,
}

impl PictureFileStorer {
    /// The directory in which the pictures are kept.
    pub closed spec fn directory(&self) -> Seq<char> {
        self.save_path@
    }

    /// A storer that keeps the pictures in the directory `save_path`.
    pub fn new(save_path: String) -> (r: Self)
        ensures
            r.directory() == save_path@,
    {
        PictureFileStorer { save_path }
    }
}

impl PictureS3Storer {
    /// The bucket in which the pictures are kept.
    pub closed spec fn bucket_name(&self) -> Seq<char> {
        self.bucket@
    }
}

} // verus!
