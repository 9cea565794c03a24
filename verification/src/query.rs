//! The queries that the operations on a mailbox send to the service.

use crate::domain::{is_host_char, lemma_display_is_injective, lemma_display_is_plain};
use crate::encoding::{
    decimal, is_query_safe, lemma_decimal_is_digits, lemma_decimal_is_injective,
    lemma_percent_encode_is_injective, lemma_percent_encode_is_safe, percent_encode, push_decimal,
    push_encoded,
};
use crate::identity::{Tempmail, TempmailView};
use vstd::prelude::*;
use vstd::utf8::encode_utf8;

verus! {

/// The two parameters that name the mailbox: `login=<username>&domain=<host>`,
/// the username percent-encoded.
pub open spec fn format_query(identity: TempmailView) -> Seq<char> {
    "login="@ + percent_encode(encode_utf8(identity.username)) + "&domain="@
        + identity.domain.display()
}

/// The query that lists the mailbox.
pub open spec fn list_query(identity: TempmailView) -> Seq<char> {
    "action=getMessages&"@ + format_query(identity)
}

/// The query that reads the message `id` of the mailbox in full. The action
/// is spelled as the service knows it.
pub open spec fn read_query(identity: TempmailView, id: nat) -> Seq<char> {
    "action=readMesage&"@ + format_query(identity) + "&id="@ + decimal(id)
}

/// The query that downloads the file `filename` attached to message `id`,
/// the file name percent-encoded.
pub open spec fn download_query(identity: TempmailView, id: nat, filename: Seq<char>) -> Seq<
    char,
> {
    "action=download&"@ + format_query(identity) + "&id="@ + decimal(id) + "&file="@
        + percent_encode(encode_utf8(filename))
}

impl Tempmail {
    /// Appends the parameters that name the mailbox to `out`.
    fn push_format_query(&self, out: &mut String)
        ensures
            final(out)@ == old(out)@ + format_query(self@),
    {
        out.append("login=");
        push_encoded(out, self.username.as_str());
        out.append("&domain=");
        out.append(self.domain.as_str());
        assert(out@ =~= old(out)@ + format_query(self@));
    }

    /// The parameters that name the mailbox.
    pub fn format_query(&self) -> (query: String)
        ensures
            query@ == format_query(self@),
    {
        let mut query = String::new();
        self.push_format_query(&mut query);
        assert(query@ =~= format_query(self@));
        query
    }

    /// The query that lists the mailbox.
    pub fn raw_messages_query(&self) -> (query: String)
        ensures
            query@ == list_query(self@),
    {
        let mut query = String::from_str("action=getMessages&");
        self.push_format_query(&mut query);
        query
    }

    /// The query that reads message `id` in full.
    pub fn read_query(&self, id: usize) -> (query: String)
        ensures
            query@ == read_query(self@, id as nat),
    {
        let mut query = String::from_str("action=readMesage&");
        self.push_format_query(&mut query);
        query.append("&id=");
        push_decimal(&mut query, id);
        query
    }

    /// The query that downloads the file `filename` of message `id`.
    pub fn attachment_query(&self, id: usize, filename: &str) -> (query: String)
        ensures
            query@ == download_query(self@, id as nat, filename@),
    {
        let mut query = String::from_str("action=download&");
        self.push_format_query(&mut query);
        query.append("&id=");
        push_decimal(&mut query, id);
        query.append("&file=");
        push_encoded(&mut query, filename);
        query
    }
}

/// `pattern` stands in `text` at offset `at`.
pub open spec fn occurs_at(text: Seq<char>, pattern: Seq<char>, at: int) -> bool {
    &&& 0 <= at
    &&& at + pattern.len() <= text.len()
    &&& text.subrange(at, at + pattern.len()) == pattern
}

/// `pattern` stands in `text` at one offset and at no other.
pub open spec fn occurs_once(text: Seq<char>, pattern: Seq<char>) -> bool {
    exists|at: int|
        {
            &&& #[trigger] occurs_at(text, pattern, at)
            &&& forall|other: int| #[trigger] occurs_at(text, pattern, other) ==> other == at
        }
}

/// Neither the encoded username nor the host name holds a `=` or a `&`.
proof fn lemma_values_are_plain(identity: TempmailView)
    ensures
        forall|i: int|
            #![trigger percent_encode(encode_utf8(identity.username))[i]]
            0 <= i < percent_encode(encode_utf8(identity.username)).len() ==> {
                let c = percent_encode(encode_utf8(identity.username))[i];
                c != '=' && c != '&'
            },
        forall|i: int|
            #![trigger identity.domain.display()[i]]
            0 <= i < identity.domain.display().len() ==> {
                let c = identity.domain.display()[i];
                c != '=' && c != '&'
            },
{
    let encoded = percent_encode(encode_utf8(identity.username));
    lemma_percent_encode_is_safe(encode_utf8(identity.username));
    assert forall|i: int| #![trigger encoded[i]] 0 <= i < encoded.len() implies encoded[i] != '='
        && encoded[i] != '&' by {
        assert(is_query_safe(encoded[i]));
    }
    let host = identity.domain.display();
    lemma_display_is_plain(identity.domain);
    assert forall|i: int| #![trigger host[i]] 0 <= i < host.len() implies host[i] != '='
        && host[i] != '&' by {
        assert(is_host_char(host[i]));
    }
}

/// What may stand before and after the parameters that name the mailbox:
/// text in which no `=` follows the letters `in`, and none stands at its
/// first or second place. No parameter name that ends in `in` can then end
/// in that text.
pub open spec fn is_frame(part: Seq<char>) -> bool {
    forall|k: int|
        0 <= k < part.len() && #[trigger] part[k] == '=' ==> k >= 2 && !(part[k - 1] == 'n'
            && part[k - 2] == 'i')
}

/// Between two frames, the parameters that name a mailbox hold `login=`
/// once and `domain=` once.
proof fn lemma_framed_parameters(prefix: Seq<char>, identity: TempmailView, suffix: Seq<char>)
    requires
        is_frame(prefix),
        is_frame(suffix),
    ensures
        occurs_once(prefix + format_query(identity) + suffix, "login="@),
        occurs_once(prefix + format_query(identity) + suffix, "domain="@),
        occurs_at(prefix + format_query(identity) + suffix, "login="@, prefix.len() as int),
{
    reveal_strlit("login=");
    reveal_strlit("&domain=");
    reveal_strlit("domain=");
    lemma_values_are_plain(identity);
    let login = "login="@;
    let domain = "domain="@;
    let encoded = percent_encode(encode_utf8(identity.username));
    let host = identity.domain.display();
    let core = format_query(identity);
    let query = prefix + core + suffix;
    let n = encoded.len() as int;
    let p = prefix.len() as int;
    assert(core.len() == 14 + n + host.len());
    assert forall|k: int| 0 <= k < core.len() && core[k] == '=' implies k == 5 || k == n
        + 13 by {
        if k < 6 {
        } else if k < 6 + n {
            assert(core[k] == encoded[k - 6]);
        } else if k < 14 + n {
            assert(core[k] == "&domain="@[k - 6 - n]);
        } else {
            assert(core[k] == host[k - 14 - n]);
        }
    }
    assert(core[3] == 'i' && core[4] == 'n' && core[2] == 'g');
    assert(core[n + 10] == "&domain="@[4]);
    assert(core[n + 11] == "&domain="@[5]);
    assert(core[n + 12] == "&domain="@[6]);
    // Where a name that ends in `in=` can end: at one of the two `=` of the
    // parameters themselves.
    assert forall|k: int|
        #![trigger query[k]]
        2 <= k < query.len() && query[k] == '=' && query[k - 1] == 'n' && query[k - 2]
            == 'i' implies k == p + 5 || k == p + n + 13 by {
        if k < p {
            assert(query[k] == prefix[k]);
            assert(query[k - 1] == prefix[k - 1]);
            assert(query[k - 2] == prefix[k - 2]);
        } else if k < p + core.len() {
            assert(query[k] == core[k - p]);
        } else {
            let j = k - p - core.len();
            assert(query[k] == suffix[j]);
            assert(j >= 2);
            assert(query[k - 1] == suffix[j - 1]);
            assert(query[k - 2] == suffix[j - 2]);
        }
    }
    assert(query.subrange(p, p + 6) =~= login);
    assert(occurs_at(query, login, p));
    assert forall|other: int| #[trigger] occurs_at(query, login, other) implies other == p by {
        let found = query.subrange(other, other + 6);
        assert(found[5] == '=' && found[4] == 'n' && found[3] == 'i' && found[2] == 'g');
        assert(query[other + 5] == '=' && query[other + 4] == 'n' && query[other + 3] == 'i');
        if other + 5 == p + n + 13 {
            assert(query[other + 2] == core[n + 10]);
        }
    }
    assert(query.subrange(p + n + 7, p + n + 14) =~= domain);
    assert(occurs_at(query, domain, p + n + 7));
    assert forall|other: int| #[trigger] occurs_at(query, domain, other) implies other == p + n
        + 7 by {
        let found = query.subrange(other, other + 7);
        assert(found[6] == '=' && found[5] == 'n' && found[4] == 'i' && found[3] == 'a');
        assert(query[other + 6] == '=' && query[other + 5] == 'n' && query[other + 4] == 'i');
        if other + 6 == p + 5 {
            assert(query[other + 3] == core[2]);
        }
    }
}

/// The parameters that name a mailbox hold `login=` once, at their start,
/// and `domain=` once: whatever the username, it adds no parameter and
/// hides none.
pub proof fn lemma_format_query_parameters(identity: TempmailView)
    ensures
        occurs_once(format_query(identity), "login="@),
        occurs_once(format_query(identity), "domain="@),
        occurs_at(format_query(identity), "login="@, 0),
{
    let empty = Seq::<char>::empty();
    lemma_framed_parameters(empty, identity, empty);
    assert(empty + format_query(identity) + empty =~= format_query(identity));
}

/// The query that lists a mailbox names the mailbox once: it holds
/// `login=` once and `domain=` once.
pub proof fn lemma_list_query_parameters(identity: TempmailView)
    ensures
        occurs_once(list_query(identity), "login="@),
        occurs_once(list_query(identity), "domain="@),
{
    reveal_strlit("action=getMessages&");
    let empty = Seq::<char>::empty();
    lemma_framed_parameters("action=getMessages&"@, identity, empty);
    assert("action=getMessages&"@ + format_query(identity) + empty =~= list_query(identity));
}

/// The query that reads a message names the mailbox once, whatever the
/// message.
pub proof fn lemma_read_query_parameters(identity: TempmailView, id: nat)
    ensures
        occurs_once(read_query(identity, id), "login="@),
        occurs_once(read_query(identity, id), "domain="@),
{
    reveal_strlit("action=readMesage&");
    reveal_strlit("&id=");
    lemma_decimal_is_digits(id);
    let suffix = "&id="@ + decimal(id);
    assert forall|k: int| 0 <= k < suffix.len() && #[trigger] suffix[k] == '=' implies k == 3 by {
        if k >= 4 {
            assert(suffix[k] == decimal(id)[k - 4]);
        }
    }
    lemma_framed_parameters("action=readMesage&"@, identity, suffix);
    assert("action=readMesage&"@ + format_query(identity) + suffix =~= read_query(identity, id));
}

/// The query that downloads a file names the mailbox once, whatever the
/// message and the name of the file.
pub proof fn lemma_download_query_parameters(identity: TempmailView, id: nat, filename: Seq<char>)
    ensures
        occurs_once(download_query(identity, id, filename), "login="@),
        occurs_once(download_query(identity, id, filename), "domain="@),
{
    reveal_strlit("action=download&");
    reveal_strlit("&id=");
    reveal_strlit("&file=");
    lemma_decimal_is_digits(id);
    lemma_percent_encode_is_safe(encode_utf8(filename));
    let number = decimal(id);
    let file = percent_encode(encode_utf8(filename));
    let suffix = "&id="@ + number + "&file="@ + file;
    let m = number.len() as int;
    assert forall|k: int| 0 <= k < suffix.len() && #[trigger] suffix[k] == '=' implies k == 3
        || k == m + 9 by {
        if k < 4 {
        } else if k < 4 + m {
            assert(suffix[k] == number[k - 4]);
        } else if k < 10 + m {
            assert(suffix[k] == "&file="@[k - 4 - m]);
        } else {
            assert(suffix[k] == file[k - 10 - m]);
            assert(is_query_safe(file[k - 10 - m]));
        }
    }
    assert(suffix[2] == 'd');
    assert(suffix[m + 8] == "&file="@[4]);
    lemma_framed_parameters("action=download&"@, identity, suffix);
    assert("action=download&"@ + format_query(identity) + suffix =~= download_query(
        identity,
        id,
        filename,
    ));
}

/// Two texts that begin alike are equal only if they go on alike.
proof fn lemma_same_start(start: Seq<char>, a: Seq<char>, b: Seq<char>)
    requires
        start + a == start + b,
    ensures
        a == b,
{
    let n = start.len() as int;
    assert(a =~= (start + a).subrange(n, n + a.len()));
    assert(b =~= (start + b).subrange(n, n + b.len()));
}

/// A value ends where the next `&` stands: two texts, each made of a value
/// that holds no `&` and of a rest that is empty or begins with `&`, are
/// equal only if the values are equal, and the rests.
proof fn lemma_same_value(a: Seq<char>, after_a: Seq<char>, b: Seq<char>, after_b: Seq<char>)
    requires
        a + after_a == b + after_b,
        forall|i: int| 0 <= i < a.len() ==> #[trigger] a[i] != '&',
        forall|i: int| 0 <= i < b.len() ==> #[trigger] b[i] != '&',
        after_a.len() == 0 || after_a[0] == '&',
        after_b.len() == 0 || after_b[0] == '&',
    ensures
        a == b,
        after_a == after_b,
{
    let left = a + after_a;
    let right = b + after_b;
    let n = a.len() as int;
    let m = b.len() as int;
    if n < m {
        assert(right[n] == b[n]);
        if after_a.len() > 0 {
            assert(left[n] == after_a[0]);
        }
    }
    if m < n {
        assert(left[m] == a[m]);
        if after_b.len() > 0 {
            assert(right[m] == after_b[0]);
        }
    }
    assert(n == m);
    assert(a =~= left.subrange(0, n));
    assert(b =~= right.subrange(0, n));
    lemma_same_start(a, after_a, after_b);
}

/// What follows the parameters that name a mailbox can be told from them:
/// two texts, each made of such parameters and of a rest that is empty or
/// begins with `&`, are equal only if they name the same mailbox and have
/// the same rest.
proof fn lemma_same_mailbox(
    a: TempmailView,
    after_a: Seq<char>,
    b: TempmailView,
    after_b: Seq<char>,
)
    requires
        format_query(a) + after_a == format_query(b) + after_b,
        after_a.len() == 0 || after_a[0] == '&',
        after_b.len() == 0 || after_b[0] == '&',
    ensures
        a == b,
        after_a == after_b,
{
    reveal_strlit("&domain=");
    lemma_values_are_plain(a);
    lemma_values_are_plain(b);
    let name_a = percent_encode(encode_utf8(a.username));
    let name_b = percent_encode(encode_utf8(b.username));
    let host_a = a.domain.display();
    let host_b = b.domain.display();
    let mark = "&domain="@;
    assert(format_query(a) + after_a =~= "login="@ + (name_a + (mark + (host_a + after_a))));
    assert(format_query(b) + after_b =~= "login="@ + (name_b + (mark + (host_b + after_b))));
    lemma_same_start("login="@, name_a + (mark + (host_a + after_a)), name_b + (mark + (host_b
        + after_b)));
    assert((mark + (host_a + after_a))[0] == '&');
    assert((mark + (host_b + after_b))[0] == '&');
    lemma_same_value(name_a, mark + (host_a + after_a), name_b, mark + (host_b + after_b));
    lemma_same_start(mark, host_a + after_a, host_b + after_b);
    lemma_same_value(host_a, after_a, host_b, after_b);
    lemma_percent_encode_is_injective(encode_utf8(a.username), encode_utf8(b.username));
    vstd::utf8::encode_utf8_decode_utf8(a.username);
    vstd::utf8::encode_utf8_decode_utf8(b.username);
    lemma_display_is_injective(a.domain, b.domain);
}

/// The parameters that name a mailbox name one mailbox only: two
/// identities with the same parameters have the same username and the same
/// domain.
pub proof fn lemma_format_query_is_injective(a: TempmailView, b: TempmailView)
    requires
        format_query(a) == format_query(b),
    ensures
        a == b,
{
    let empty = Seq::<char>::empty();
    assert(format_query(a) + empty =~= format_query(a));
    assert(format_query(b) + empty =~= format_query(b));
    lemma_same_mailbox(a, empty, b, empty);
}

/// The query that lists a mailbox belongs to that mailbox only.
pub proof fn lemma_list_query_is_injective(a: TempmailView, b: TempmailView)
    requires
        list_query(a) == list_query(b),
    ensures
        a == b,
{
    lemma_same_start("action=getMessages&"@, format_query(a), format_query(b));
    lemma_format_query_is_injective(a, b);
}

/// The query that reads a message belongs to one mailbox and one message
/// only.
pub proof fn lemma_read_query_is_injective(a: TempmailView, id_a: nat, b: TempmailView, id_b: nat)
    requires
        read_query(a, id_a) == read_query(b, id_b),
    ensures
        a == b,
        id_a == id_b,
{
    reveal_strlit("&id=");
    let after_a = "&id="@ + decimal(id_a);
    let after_b = "&id="@ + decimal(id_b);
    let start = "action=readMesage&"@;
    assert(read_query(a, id_a) =~= start + (format_query(a) + after_a));
    assert(read_query(b, id_b) =~= start + (format_query(b) + after_b));
    lemma_same_start(start, format_query(a) + after_a, format_query(b) + after_b);
    assert(after_a[0] == '&' && after_b[0] == '&');
    lemma_same_mailbox(a, after_a, b, after_b);
    lemma_same_start("&id="@, decimal(id_a), decimal(id_b));
    lemma_decimal_is_injective(id_a, id_b);
}

/// The query that downloads a file belongs to one mailbox, one message and
/// one file name only.
pub proof fn lemma_download_query_is_injective(
    a: TempmailView,
    id_a: nat,
    file_a: Seq<char>,
    b: TempmailView,
    id_b: nat,
    file_b: Seq<char>,
)
    requires
        download_query(a, id_a, file_a) == download_query(b, id_b, file_b),
    ensures
        a == b,
        id_a == id_b,
        file_a == file_b,
{
    reveal_strlit("&id=");
    reveal_strlit("&file=");
    let name_a = percent_encode(encode_utf8(file_a));
    let name_b = percent_encode(encode_utf8(file_b));
    let tail_a = "&file="@ + name_a;
    let tail_b = "&file="@ + name_b;
    let after_a = "&id="@ + (decimal(id_a) + tail_a);
    let after_b = "&id="@ + (decimal(id_b) + tail_b);
    let start = "action=download&"@;
    assert(download_query(a, id_a, file_a) =~= start + (format_query(a) + after_a));
    assert(download_query(b, id_b, file_b) =~= start + (format_query(b) + after_b));
    lemma_same_start(start, format_query(a) + after_a, format_query(b) + after_b);
    assert(after_a[0] == '&' && after_b[0] == '&');
    lemma_same_mailbox(a, after_a, b, after_b);
    lemma_same_start("&id="@, decimal(id_a) + tail_a, decimal(id_b) + tail_b);
    lemma_decimal_is_digits(id_a);
    lemma_decimal_is_digits(id_b);
    assert(tail_a[0] == '&' && tail_b[0] == '&');
    lemma_same_value(decimal(id_a), tail_a, decimal(id_b), tail_b);
    lemma_decimal_is_injective(id_a, id_b);
    lemma_same_start("&file="@, name_a, name_b);
    lemma_percent_encode_is_injective(encode_utf8(file_a), encode_utf8(file_b));
    vstd::utf8::encode_utf8_decode_utf8(file_a);
    vstd::utf8::encode_utf8_decode_utf8(file_b);
}

} // verus!
