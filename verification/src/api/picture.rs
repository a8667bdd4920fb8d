use vstd::prelude::*;
use vstd::string::StringExecFns;

use crate::utils::errors_catcher::{answers_invalid_input, ErrorResponder, ErrorType};
use crate::utils::utils::{decimal, int_to_string};

verus! {

/// What the upload of a picture tells of its file: the name the client
/// gave, if any, and its size in bytes once saved.
pub struct UploadPictureData {
    pub file_name: Option<String>,
    pub file_size: u64,
}

/// The largest size of one picture, in kilobytes.
pub const MAX_PICTURE_SIZE_KO: i32 = 10_000_000;

/// The name kept for an uploaded picture.
pub open spec fn upload_name(d: UploadPictureData) -> Seq<char> {
    match d.file_name {
        Some(n) => n@,
        None => "unknown.jpg"@,
    }
}

/// The ASCII characters of a text, in order.
pub open spec fn ascii_only(s: Seq<char>) -> Seq<char>
    decreases s.len(),
{
    if s.len() == 0 {
        s
    } else {
        ascii_only(s.drop_last()) + if (s.last() as int) < 128 {
            seq![s.last()]
        } else {
            Seq::<char>::empty()
        }
    }
}

/// A size in bytes in kilobytes, rounded up, as the 32 bit integer that a
/// cast of the quotient gives.
pub open spec fn size_in_ko(size: u64) -> i32 {
    ((size + 1023) / 1024) as i32
}

/// The message refusing a picture of `ko` kilobytes.
pub open spec fn too_big_message(ko: int) -> Seq<char> {
    "File size is too big: "@ + decimal(ko) + " Ko"@
}

impl UploadPictureData {
    /// The name kept for the picture: the client's, else a default one.
    pub fn name(&self) -> (r: String)
        ensures
            r@ == upload_name(*self),
    {
        match &self.file_name {
            Some(n) => n.clone(),
            None => String::from_str("unknown.jpg"),
        }
    }

    /// The name of the temporary file that holds the upload: a random
    /// number, a hyphen and the ASCII characters of the picture's name.
    pub fn temp_file_name(&self, random: u16) -> (r: String)
        ensures
            r@ == decimal(random as int) + "-"@ + ascii_only(upload_name(*self)),
    {
        let name = self.name();
        let mut r = int_to_string(random as i64);
        r.append("-");
        let n = name.as_str().unicode_len();
        let ghost r0 = r@;
        let mut i: usize = 0;
        while i < n
            invariant
                n == name@.len(),
                i <= n,
                r@ == r0 + ascii_only(name@.subrange(0, i as int)),
            decreases n - i,
        {
            let c = name.as_str().get_char(i);
            assert(name@.subrange(0, i + 1).drop_last() =~= name@.subrange(0, i as int));
            if (c as u32) < 128 {
                r.push(c);
            }
            proof {
                let s = name@.subrange(0, i + 1);
                assert(s.last() == c);
                if (c as int) < 128 {
                    assert(r@ =~= r0 + ascii_only(s));
                } else {
                    assert(r@ =~= r0 + ascii_only(s));
                }
            }
            i = i + 1;
        }
        assert(name@.subrange(0, n as int) =~= name@);
        r
    }

    /// The size of the picture in kilobytes, rounded up and at least one,
    /// when it is no larger than the largest size of a picture and fits in
    /// what is left of the user's storage.
    pub fn size_ko(&self, storage_count_ko: i64, storage_limit_ko: i64) -> (r: Result<i32, ErrorResponder>)
        requires
            self.file_size + 1023 <= u64::MAX,
            size_in_ko(self.file_size) <= MAX_PICTURE_SIZE_KO ==> i64::MIN <= storage_count_ko + (if size_in_ko(self.file_size)
                == 0 {
                1
            } else {
                size_in_ko(self.file_size)
            }) <= i64::MAX,
        ensures
            size_in_ko(self.file_size) > MAX_PICTURE_SIZE_KO ==> (r matches Err(e) && answers_invalid_input(
                e,
                too_big_message(size_in_ko(self.file_size) as int),
            )),
            size_in_ko(self.file_size) <= MAX_PICTURE_SIZE_KO ==> ({
                let ko: i32 = if size_in_ko(self.file_size) == 0 { 1 } else { size_in_ko(self.file_size) };
                &&& storage_count_ko + ko > storage_limit_ko ==> (r matches Err(e) && answers_invalid_input(
                    e,
                    too_big_message(ko as int),
                ))
                &&& storage_count_ko + ko <= storage_limit_ko ==> r == Ok::<i32, ErrorResponder>(ko)
            }),
    {
        let quotient: u64 = (self.file_size + 1023) / 1024;
        let mut ko: i32 = quotient as i32;
        if ko > MAX_PICTURE_SIZE_KO {
            return too_big(ko);
        }
        if ko == 0 {
            ko = 1;
        }
        if storage_count_ko + (ko as i64) > storage_limit_ko {
            return too_big(ko);
        }
        Ok(ko)
    }
}

/// The refusal of a picture of `ko` kilobytes.
fn too_big(ko: i32) -> (r: Result<i32, ErrorResponder>)
    ensures
        r matches Err(e) && answers_invalid_input(e, too_big_message(ko as int)),
{
    let mut msg = String::from_str("File size is too big: ");
    let n = int_to_string(ko as i64);
    msg.append(n.as_str());
    msg.append(" Ko");
    ErrorType::InvalidInput(msg).res_err()
}

} // verus!
