//! Upload-target naming for the object store: the URL an uploaded file is
//! reachable under. The transfer itself is the host's concern.

use vstd::prelude::*;

use crate::errors::{DocError, ErrorKind};
use crate::textutil::{chars_string, str_chars};

verus! {

/// The part of a path after its last separator; empty when the path ends
/// with one or is empty.
pub open spec fn file_name_of(path: Seq<char>) -> Seq<char>
    decreases path.len(),
{
    if path.len() == 0 {
        Seq::empty()
    } else if path.last() == '/' {
        Seq::empty()
    } else {
        file_name_of(path.drop_last()) + seq![path.last()]
    }
}

proof fn lemma_file_name_suffix(s: Seq<char>, k: int)
    requires
        0 <= k <= s.len(),
        forall|j: int| k <= j < s.len() ==> s[j] != '/',
        k > 0 ==> s[k - 1] == '/',
    ensures
        file_name_of(s) == s.subrange(k, s.len() as int),
    decreases s.len() - k,
{
    if s.len() == k {
        if k == 0 {
            assert(s.subrange(0, 0) =~= Seq::<char>::empty());
        } else {
            assert(s.last() == s[k - 1]);
            assert(s.subrange(k, s.len() as int) =~= Seq::<char>::empty());
        }
    } else {
        assert(s.last() != '/');
        assert(forall|j: int| k <= j < s.len() - 1 ==> s.drop_last()[j] == s[j]);
        lemma_file_name_suffix(s.drop_last(), k);
        assert(s.drop_last().subrange(k, s.len() - 1) =~= s.subrange(k, s.len() - 1));
        assert(s.subrange(k, s.len() - 1) + seq![s.last()] =~= s.subrange(k, s.len() as int));
    }
}

/// The URL an uploaded file is reachable under: the bucket's endpoint plus
/// the file's name. Fails when the path carries no file name. The two key
/// arguments take part in the transfer, not in the name.
pub fn upload_to_oss(
    local_file_path: &str,
    bucket_name: &str,
    access_key_id: &str,
    access_key_secret: &str,
) -> (r: Result<String, DocError>)
    ensures
        r matches Ok(u) ==> file_name_of(local_file_path@).len() > 0 && u@ == "https://"@
            + bucket_name@ + ".oss-cn-beijing.aliyuncs.com/"@ + file_name_of(local_file_path@),
        r is Err ==> file_name_of(local_file_path@).len() == 0,
{
    let chars = str_chars(local_file_path);
    let n = chars.len();
    let mut k: usize = n;
    loop
        invariant
            0 <= k <= n,
            n == chars@.len(),
            forall|j: int| k <= j < n ==> chars@[j] != '/',
        ensures
            0 <= k <= n,
            forall|j: int| k <= j < n ==> chars@[j] != '/',
            k > 0 ==> chars@[k - 1] == '/',
            k == 0 ==> forall|j: int| 0 <= j < n ==> chars@[j] != '/',
        decreases k,
    {
        if k == 0 {
            break;
        }
        if chars[k - 1] == '/' {
            break;
        }
        k -= 1;
    }
    proof {
        lemma_file_name_suffix(chars@, k as int);
    }
    if k == n {
        return Err(
            DocError::new(
                ErrorKind::IoFailure,
                local_file_path,
                "",
                String::from_str("the path carries no file name"),
            ),
        );
    }
    let mut url = str_chars("https://");
    let mut b = str_chars(bucket_name);
    url.append(&mut b);
    let mut host = str_chars(".oss-cn-beijing.aliyuncs.com/");
    url.append(&mut host);
    let mut i = k;
    let ghost base = url@;
    while i < n
        invariant
            k <= i <= n,
            n == chars@.len(),
            url@ == base + chars@.subrange(k as int, i as int),
        decreases n - i,
    {
        url.push(chars[i]);
        proof {
            assert(url@ =~= base + chars@.subrange(k as int, i + 1));
        }
        i += 1;
    }
    proof {
        assert(url@ =~= "https://"@ + bucket_name@ + ".oss-cn-beijing.aliyuncs.com/"@
            + file_name_of(local_file_path@));
    }
    Ok(chars_string(&url))
}

} // verus!
