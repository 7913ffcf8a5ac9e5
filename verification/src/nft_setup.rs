//! The nftables rules of the service: the commands that create and remove
//! them, how a command line splits into arguments, and which failures of
//! `nft` are harmless.

use vstd::prelude::*;

use crate::text::{
    chars_of, decode_lossy, has_infix, has_prefix, contains_chars, is_white_space, is_white_space_char,
    push_char, utf8_lossy,
};

verus! {

/// The `nft` commands that set the rules up, in order.
pub open spec fn setup_command_texts() -> Seq<Seq<char>> {
    seq![
        "add table inet netguard"@,
        "add chain inet netguard input { type filter hook input priority 0; policy accept; }"@,
        "add chain inet netguard output { type filter hook output priority 0; policy accept; }"@,
        "add rule inet netguard output tcp counter nflog group 100"@,
    ]
}

/// The `nft` command that removes the rules.
pub open spec fn cleanup_command_text() -> Seq<char> {
    "delete table inet netguard"@
}

/// The commands that set the rules up, in the order they are run.
pub fn setup_commands() -> (r: Vec<String>)
    ensures
        r@.len() == setup_command_texts().len(),
        forall|i: int| 0 <= i < r@.len() ==> #[trigger] r@[i]@ == setup_command_texts()[i],
{
    let mut r: Vec<String> = Vec::new();
    r.push("add table inet netguard".to_owned());
    r.push(
        "add chain inet netguard input { type filter hook input priority 0; policy accept; }".to_owned(),
    );
    r.push(
        "add chain inet netguard output { type filter hook output priority 0; policy accept; }".to_owned(),
    );
    r.push("add rule inet netguard output tcp counter nflog group 100".to_owned());
    r
}

/// The setup creates the table first, hooks each chain where its name says
/// (the `input` chain at the input hook, the `output` chain at the output
/// hook), and adds the logging rule, which sends TCP packets to NFLOG group
/// 100, to the `output` chain after that chain is created.
pub proof fn law_chains_hook_where_named()
    ensures
        ({
            let cs = setup_command_texts();
            &&& cs.len() == 4
            &&& cs[0] == "add table inet netguard"@
            &&& forall|i: int|
                0 <= i < cs.len() && #[trigger] has_prefix(cs[i], "add chain inet netguard output "@)
                    ==> has_infix(cs[i], "{ type filter hook output "@)
            &&& forall|i: int|
                0 <= i < cs.len() && #[trigger] has_prefix(cs[i], "add chain inet netguard input "@)
                    ==> has_infix(cs[i], "{ type filter hook input "@)
            &&& has_prefix(cs[2], "add chain inet netguard output "@)
            &&& has_prefix(cs[1], "add chain inet netguard input "@)
            &&& has_prefix(cs[3], "add rule inet netguard output tcp "@)
            &&& has_infix(cs[3], "nflog group 100"@)
        }),
{
    let cs = setup_command_texts();
    let c0 = "add table inet netguard"@;
    let c1 = "add chain inet netguard input { type filter hook input priority 0; policy accept; }"@;
    let c2 = "add chain inet netguard output { type filter hook output priority 0; policy accept; }"@;
    let c3 = "add rule inet netguard output tcp counter nflog group 100"@;
    let out_chain = "add chain inet netguard output "@;
    let in_chain = "add chain inet netguard input "@;
    let out_hook = "{ type filter hook output "@;
    let in_hook = "{ type filter hook input "@;
    let rule = "add rule inet netguard output tcp "@;
    let group = "nflog group 100"@;
    reveal_strlit("add table inet netguard");
    reveal_strlit("add chain inet netguard input { type filter hook input priority 0; policy accept; }");
    reveal_strlit("add chain inet netguard output { type filter hook output priority 0; policy accept; }");
    reveal_strlit("add rule inet netguard output tcp counter nflog group 100");
    reveal_strlit("add chain inet netguard output ");
    reveal_strlit("add chain inet netguard input ");
    reveal_strlit("{ type filter hook output ");
    reveal_strlit("{ type filter hook input ");
    reveal_strlit("add rule inet netguard output tcp ");
    reveal_strlit("nflog group 100");
    assert(cs[0] == c0 && cs[1] == c1 && cs[2] == c2 && cs[3] == c3);
    assert(c2.take(out_chain.len() as int) =~= out_chain);
    assert(c1.take(in_chain.len() as int) =~= in_chain);
    assert(c3.take(rule.len() as int) =~= rule);
    assert(c2.subrange(31, 31 + out_hook.len() as int) =~= out_hook);
    assert(has_infix(c2, out_hook));
    assert(c1.subrange(30, 30 + in_hook.len() as int) =~= in_hook);
    assert(has_infix(c1, in_hook));
    assert(c3.subrange(42, 42 + group.len() as int) =~= group);
    assert(has_infix(c3, group));
    assert(!has_prefix(c0, out_chain) && !has_prefix(c0, in_chain)) by {
        assert(c0.take(out_chain.len() as int).len() != out_chain.len()
            || c0.len() < out_chain.len());
    }
    assert(!has_prefix(c1, out_chain)) by {
        assert(c1.take(out_chain.len() as int)[24] != out_chain[24]);
    }
    assert(!has_prefix(c2, in_chain)) by {
        assert(c2.take(in_chain.len() as int)[24] != in_chain[24]);
    }
    assert(!has_prefix(c3, out_chain) && !has_prefix(c3, in_chain)) by {
        assert(c3.take(out_chain.len() as int)[4] != out_chain[4]);
        assert(c3.take(in_chain.len() as int)[4] != in_chain[4]);
    }
}

/// The first failure among the outcomes of the setup commands run so far.
pub open spec fn first_failure(outcomes: Seq<Result<(), String>>) -> Option<String>
    decreases outcomes.len(),
{
    if outcomes.len() == 0 {
        None
    } else {
        match first_failure(outcomes.drop_last()) {
            Some(m) => Some(m),
            None => match outcomes.last() {
                Err(m) => Some(m),
                Ok(_) => None,
            },
        }
    }
}

/// The next step of setting the rules up, after the outcomes of the commands
/// run so far, in order: stop with the first failure; else run the next
/// setup command; else finish.
pub fn setup_step(outcomes: &Vec<Result<(), String>>) -> (r: Result<Option<String>, String>)
    ensures
        match first_failure(outcomes@) {
            Some(m) => r == Err::<Option<String>, String>(m),
            None => if outcomes@.len() < setup_command_texts().len() {
                r matches Ok(Some(c)) && c@ == setup_command_texts()[outcomes@.len() as int]
            } else {
                r == Ok::<Option<String>, String>(None)
            },
        },
{
    let mut i: usize = 0;
    while i < outcomes.len()
        invariant
            i <= outcomes@.len(),
            first_failure(outcomes@.take(i as int)) is None,
        decreases outcomes@.len() - i,
    {
        assert(outcomes@.take(i + 1).drop_last() =~= outcomes@.take(i as int));
        match &outcomes[i] {
            Err(m) => {
                let message = m.clone();
                proof {
                    lemma_first_failure_prefix(outcomes@, i + 1);
                }
                return Err(message);
            },
            Ok(_) => {},
        }
        i = i + 1;
    }
    assert(outcomes@.take(outcomes@.len() as int) =~= outcomes@);
    let commands = setup_commands();
    if outcomes.len() < commands.len() {
        Ok(Some(commands[outcomes.len()].clone()))
    } else {
        Ok(None)
    }
}

proof fn lemma_first_failure_prefix(outcomes: Seq<Result<(), String>>, n: int)
    requires
        0 <= n <= outcomes.len(),
        first_failure(outcomes.take(n)) is Some,
    ensures
        first_failure(outcomes) == first_failure(outcomes.take(n)),
    decreases outcomes.len() - n,
{
    if n < outcomes.len() {
        assert(outcomes.take(n + 1).drop_last() =~= outcomes.take(n));
        lemma_first_failure_prefix(outcomes, n + 1);
    } else {
        assert(outcomes.take(n) =~= outcomes);
    }
}

/// The command that removes the rules.
pub fn cleanup_command() -> (r: String)
    ensures
        r@ == cleanup_command_text(),
{
    "delete table inet netguard".to_owned()
}

/// The words of `s`: its maximal runs of non-white-space characters, in order.
pub open spec fn words(s: Seq<char>) -> Seq<Seq<char>>
    decreases s.len(),
{
    if s.len() == 0 {
        Seq::empty()
    } else if is_white_space(s.last()) {
        words(s.drop_last())
    } else if s.len() >= 2 && !is_white_space(s[s.len() - 2]) {
        let w = words(s.drop_last());
        w.update(w.len() - 1, w.last().push(s.last()))
    } else {
        words(s.drop_last()).push(seq![s.last()])
    }
}

proof fn lemma_words_nonempty(s: Seq<char>)
    requires
        s.len() > 0,
        !is_white_space(s.last()),
    ensures
        words(s).len() > 0,
    decreases s.len(),
{
    if s.len() >= 2 && !is_white_space(s[s.len() - 2]) {
        assert(s.drop_last().last() == s[s.len() - 2]);
        lemma_words_nonempty(s.drop_last());
    }
}

/// The words of a character sequence (see `words`).
pub fn split_words_chars(chars: &Vec<char>) -> (r: Vec<Vec<char>>)
    ensures
        r@.len() == words(chars@).len(),
        forall|i: int| 0 <= i < r@.len() ==> #[trigger] r@[i]@ == words(chars@)[i],
{
    let mut done: Vec<Vec<char>> = Vec::new();
    let mut current: Vec<char> = Vec::new();
    let mut i: usize = 0;
    while i < chars.len()
        invariant
            i <= chars@.len(),
            current@.len() > 0 <==> (i > 0 && !is_white_space(chars@[i - 1])),
            words(chars@.take(i as int)).len() == done@.len() + (if current@.len() > 0 {
                1int
            } else {
                0
            }),
            forall|k: int| 0 <= k < done@.len() ==> #[trigger] done@[k]@ == words(chars@.take(i as int))[k],
            current@.len() > 0 ==> current@ == words(chars@.take(i as int)).last(),
        decreases chars@.len() - i,
    {
        let c = chars[i];
        let ghost prefix = chars@.take(i as int);
        let ghost next = chars@.take(i + 1);
        assert(next.drop_last() =~= prefix);
        assert(next.last() == c);
        if is_white_space_char(c) {
            if current.len() > 0 {
                let mut finished: Vec<char> = Vec::new();
                std::mem::swap(&mut finished, &mut current);
                done.push(finished);
            }
        } else {
            if current.len() > 0 {
                assert(next[next.len() - 2] == chars@[i - 1]);
            } else if i > 0 {
                assert(next[next.len() - 2] == chars@[i - 1]);
            }
            current.push(c);
        }
        i = i + 1;
    }
    assert(chars@.take(chars@.len() as int) =~= chars@);
    if current.len() > 0 {
        done.push(current);
    }
    done
}

/// `str::split_whitespace`: the words of `s`.
pub fn split_words(s: &str) -> (r: Vec<String>)
    ensures
        r@.len() == words(s@).len(),
        forall|i: int| 0 <= i < r@.len() ==> #[trigger] r@[i]@ == words(s@)[i],
{
    let chars = chars_of(s);
    let done = split_words_chars(&chars);
    let mut r: Vec<String> = Vec::new();
    let mut k: usize = 0;
    while k < done.len()
        invariant
            k <= done@.len(),
            r@.len() == k,
            forall|m: int| 0 <= m < k ==> #[trigger] r@[m]@ == done@[m]@,
        decreases done@.len() - k,
    {
        let mut w = String::new();
        let mut j: usize = 0;
        while j < done[k].len()
            invariant
                k < done@.len(),
                j <= done@[k as int]@.len(),
                w@ == done@[k as int]@.take(j as int),
            decreases done@[k as int]@.len() - j,
        {
            push_char(&mut w, done[k][j]);
            j = j + 1;
            assert(w@ =~= done@[k as int]@.take(j as int));
        }
        assert(done@[k as int]@.take(j as int) =~= done@[k as int]@);
        r.push(w);
        k = k + 1;
    }
    r
}

/// A failure of `nft` that only says the rule already exists or the table is
/// already gone.
pub open spec fn harmless_failure(stderr: Seq<char>) -> bool {
    has_infix(stderr, "File exists"@) || has_infix(stderr, "No such file or directory"@)
}

/// The result of one `nft` run from its exit status and error output: a
/// success, or a harmless failure, is fine; any other failure is an error
/// that quotes the error output.
pub fn nft_outcome(success: bool, stderr: &[u8]) -> (r: Result<(), String>)
    ensures
        r is Ok <==> (success || harmless_failure(utf8_lossy(stderr@))),
        r matches Err(message) ==> message@ == "nft command failed: "@ + utf8_lossy(stderr@),
{
    if success {
        return Ok(());
    }
    let text = decode_lossy(stderr);
    let chars = chars_of(text.as_str());
    if contains_chars(&chars, &chars_of("File exists")) || contains_chars(
        &chars,
        &chars_of("No such file or directory"),
    ) {
        return Ok(());
    }
    let mut message = "nft command failed: ".to_owned();
    let mut i: usize = 0;
    let ghost prefix = message@;
    while i < chars.len()
        invariant
            i <= chars@.len(),
            message@ == prefix + chars@.take(i as int),
        decreases chars@.len() - i,
    {
        push_char(&mut message, chars[i]);
        i = i + 1;
        assert(message@ =~= prefix + chars@.take(i as int));
    }
    assert(chars@.take(chars@.len() as int) =~= chars@);
    Err(message)
}

} // verus!
