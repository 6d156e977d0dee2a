//! Accounts: their names, and where their files are.

use vstd::prelude::*;

use crate::text;
use crate::text::{chars_of, is_less};

verus! {

/// An account.
#[derive(Debug)]
pub struct AccountInfo {
    pub name: String,
}

/// A path with a part appended: a separator stands between them, unless the path is empty or
/// ends with one.
pub open spec fn path_with(path: Seq<char>, part: Seq<char>) -> Seq<char> {
    if path.len() == 0 || path.last() == '/' {
        path + part
    } else {
        path + "/"@ + part
    }
}

/// A path with a part appended.
pub fn join_path(path: &str, part: &str) -> (r: String)
    ensures
        r@ == path_with(path@, part@),
{
    let chars = chars_of(path);
    let mut out = path.to_owned();
    if chars.len() > 0 && chars[chars.len() - 1] != '/' {
        out.append("/");
    }
    out.append(part);
    assert(out@ =~= path_with(path@, part@));
    out
}

/// The directory of the accounts.
pub fn accounts_root(data_dir: &str) -> (r: String)
    ensures
        r@ == path_with(data_dir@, "accounts"@),
{
    join_path(data_dir, "accounts")
}

/// Whether a character may stand in the name of an account: letters and digits of any script,
/// and the underscore.
pub open spec fn is_name_char(c: char) -> bool {
    text::is_letter_or_number(c) || c == '_'
}

/// The characters of a name that may stay.
pub open spec fn name_chars(s: Seq<char>) -> Seq<char>
    decreases s.len(),
{
    if s.len() == 0 {
        Seq::empty()
    } else if is_name_char(s.last()) {
        name_chars(s.drop_last()).push(s.last())
    } else {
        name_chars(s.drop_last())
    }
}

/// A name that is safe as the name of a directory; `account` where nothing is left of it.
pub open spec fn safe_name(s: Seq<char>) -> Seq<char> {
    if name_chars(s).len() == 0 {
        "account"@
    } else {
        name_chars(s)
    }
}

/// A name that is safe as the name of a directory.
pub fn sanitize_name(name: &str) -> (r: String)
    ensures
        r@ == safe_name(name@),
{
    let chars = chars_of(name);
    let mut out = String::new();
    let mut kept: usize = 0;
    assert(chars@.take(0) =~= Seq::empty());
    for i in 0..chars.len()
        invariant
            chars@ == name@,
            out@ == name_chars(chars@.take(i as int)),
            kept == out@.len(),
            kept <= i,
    {
        proof {
            assert(chars@.take(i + 1).drop_last() =~= chars@.take(i as int));
            assert(chars@.take(i + 1).last() == chars@[i as int]);
        }
        if chars[i].is_alphanumeric() || chars[i] == '_' {
            out.push(chars[i]);
            kept = kept + 1;
        }
    }
    assert(chars@.take(chars@.len() as int) =~= name@);
    if kept == 0 {
        "account".to_owned()
    } else {
        out
    }
}

/// A safe name is one part of a path and stays as it is: it is not empty, holds no `/`, `\`,
/// `.` or `:` and no white space, and making it safe again changes nothing.
pub proof fn safe_names_are_safe(s: Seq<char>)
    ensures
        safe_name(s).len() > 0,
        forall|i: int|
            0 <= i < safe_name(s).len() ==> {
                let c = #[trigger] safe_name(s)[i];
                &&& is_name_char(c)
                &&& c != '/' && c != '\\' && c != '.' && c != ':'
                &&& !text::is_white(c)
            },
        safe_name(safe_name(s)) == safe_name(s),
{
    reveal_strlit("account");
    lemma_name_chars(s);
    lemma_all_kept(safe_name(s));
}

proof fn lemma_name_chars(s: Seq<char>)
    ensures
        forall|i: int| 0 <= i < name_chars(s).len() ==> is_name_char(#[trigger] name_chars(s)[i]),
    decreases s.len(),
{
    if s.len() > 0 {
        lemma_name_chars(s.drop_last());
        let before = name_chars(s.drop_last());
        assert forall|i: int| 0 <= i < name_chars(s).len() implies is_name_char(
            #[trigger] name_chars(s)[i],
        ) by {
            if i < before.len() {
                assert(name_chars(s)[i] == before[i]);
            }
        }
    }
}

proof fn lemma_all_kept(s: Seq<char>)
    requires
        forall|i: int| 0 <= i < s.len() ==> is_name_char(#[trigger] s[i]),
    ensures
        name_chars(s) == s,
    decreases s.len(),
{
    if s.len() > 0 {
        let t = s.drop_last();
        assert forall|i: int| 0 <= i < t.len() implies is_name_char(#[trigger] t[i]) by {
            assert(t[i] == s[i]);
        }
        lemma_all_kept(t);
        assert(is_name_char(s[s.len() - 1]));
        assert(t.push(s.last()) =~= s);
    }
}

/// The file of the books of an account.
pub open spec fn account_file(data_dir: Seq<char>, name: Seq<char>) -> Seq<char> {
    path_with(path_with(path_with(data_dir, "accounts"@), safe_name(name)), "account.db"@)
}

/// The file of the books of an account.
pub fn account_db_path(data_dir: &str, name: &str) -> (r: String)
    ensures
        r@ == account_file(data_dir@, name@),
{
    let root = accounts_root(data_dir);
    let safe = sanitize_name(name);
    let dir = join_path(root.as_str(), safe.as_str());
    join_path(dir.as_str(), "account.db")
}

/// The account that is created under a name, or why it cannot be: there is one already.
pub fn create_account(name: &str, exists: bool) -> (r: Result<AccountInfo, String>)
    ensures
        match r {
            Ok(info) => !exists && info.name@ == safe_name(name@),
            Err(e) => exists && e@ == "账户「"@ + safe_name(name@) + "」已存在"@,
        },
{
    let safe = sanitize_name(name);
    if exists {
        let mut out = String::new();
        out.append("账户「");
        out.append(safe.as_str());
        out.append("」已存在");
        assert(out@ =~= "账户「"@ + safe_name(name@) + "」已存在"@);
        Err(out)
    } else {
        Ok(AccountInfo { name: safe })
    }
}

/// What is said of an account that does not exist.
pub fn missing_account(name: &str) -> (r: String)
    ensures
        r@ == "账户「"@ + name@ + "」不存在"@,
{
    let mut out = String::new();
    out.append("账户「");
    out.append(name);
    out.append("」不存在");
    assert(out@ =~= "账户「"@ + name@ + "」不存在"@);
    out
}

/// Whether names stand in order.
pub open spec fn in_order(names: Seq<Seq<char>>) -> bool {
    forall|i: int, j: int|
        0 <= i < j < names.len() ==> !text::text_less(#[trigger] names[j], #[trigger] names[i])
}

proof fn lemma_not_after(a: Seq<char>, b: Seq<char>, c: Seq<char>)
    requires
        !text::text_less(b, a),
        !text::text_less(c, b),
    ensures
        !text::text_less(c, a),
{
    text::text_order_is_total(a, b);
    text::text_order_is_total(b, c);
    if text::text_less(c, a) {
        if text::text_less(a, b) {
            text::text_order_is_transitive(c, a, b);
        }
    }
}

proof fn lemma_inserted(names: Seq<Seq<char>>, at: int, name: Seq<char>)
    requires
        in_order(names),
        0 <= at <= names.len(),
        at > 0 ==> !text::text_less(name, names[at - 1]),
        at < names.len() ==> text::text_less(name, names[at]),
    ensures
        in_order(names.insert(at, name)),
{
    let after = names.insert(at, name);
    assert forall|i: int, j: int| 0 <= i < j < after.len() implies !text::text_less(
        #[trigger] after[j],
        #[trigger] after[i],
    ) by {
        if i < at {
            assert(after[i] == names[i]);
        } else if i > at {
            assert(after[i] == names[i - 1]);
        }
        if j < at {
            assert(after[j] == names[j]);
        } else if j > at {
            assert(after[j] == names[j - 1]);
        }
        if j == at {
            if i < at - 1 {
                lemma_not_after(names[i], names[at - 1], name);
            }
        } else if i == at {
            text::text_order_is_total(name, names[at]);
            if j - 1 > at {
                lemma_not_after(name, names[at], names[j - 1]);
            }
        }
    }
}

/// The accounts by name.
pub fn list_accounts(names: &Vec<String>) -> (r: Vec<String>)
    ensures
        in_order(text::views(r@)),
        text::views(r@).to_multiset() == text::views(names@).to_multiset(),
{
    let mut out: Vec<String> = Vec::new();
    let ghost all = text::views(names@);
    assert(text::views(out@) =~= Seq::empty());
    assert(all.take(0) =~= Seq::empty());
    for i in 0..names.len()
        invariant
            all == text::views(names@),
            in_order(text::views(out@)),
            text::views(out@).to_multiset() == all.take(i as int).to_multiset(),
    {
        let ghost before = text::views(out@);
        let mut at: usize = out.len();
        while at > 0 && is_less(names[i].as_str(), out[at - 1].as_str())
            invariant
                i < names@.len(),
                before == text::views(out@),
                in_order(before),
                at <= out@.len(),
                at < before.len() ==> text::text_less(names@[i as int]@, before[at as int]),
            decreases at,
        {
            assert(before[at - 1] == out@[at - 1]@);
            at = at - 1;
        }
        proof {
            if at > 0 {
                assert(before[at - 1] == out@[at - 1]@);
            }
            lemma_inserted(before, at as int, names@[i as int]@);
        }
        out.insert(at, names[i].clone());
        proof {
            assert(text::views(out@) =~= before.insert(at as int, names@[i as int]@));
            vstd::seq_lib::to_multiset_insert(before, at as int, names@[i as int]@);
            assert(all.take(i + 1) =~= all.take(i as int).push(names@[i as int]@));
            vstd::seq_lib::to_multiset_build(all.take(i as int), names@[i as int]@);
        }
    }
    assert(all.take(all.len() as int) =~= all);
    out
}

} // verus!
