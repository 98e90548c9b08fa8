//! Driving the privileged helper from the GUI: how its exit status and its
//! results become the answer to a flash request, and how it is launched
//! with elevation on macOS (a quoted shell line inside AppleScript).

use vstd::prelude::*;

use crate::models::FlashResult;
use crate::text;

verus! {

/// The answer to a flash request from the helper's launch status and the
/// results it wrote: its results where it succeeded or wrote any, else an
/// error.
pub fn flash_outcome(status: Result<bool, String>, results: Vec<FlashResult>) -> (r: Result<
    Vec<FlashResult>,
    String,
>)
    ensures
        match status {
            Ok(true) => r == Ok::<Vec<FlashResult>, String>(results),
            Ok(false) => if results@.len() > 0 {
                r == Ok::<Vec<FlashResult>, String>(results)
            } else {
                r matches Err(e) && e@ == "Flashing failed or was cancelled"@
            },
            Err(e) => r == Err::<Vec<FlashResult>, String>(e),
        },
{
    match status {
        Ok(true) => Ok(results),
        Ok(false) => if results.len() > 0 {
            Ok(results)
        } else {
            Err("Flashing failed or was cancelled".to_owned())
        },
        Err(e) => Err(e),
    }
}

/// What a `pkexec` exit code means: 0 success, 126 (dismissed / not
/// authorized) and 127 (authentication failed) an error, anything else a
/// helper that ran and failed.
pub fn pkexec_status(code: Option<i32>) -> (r: Result<bool, String>)
    ensures
        code == Some(0i32) ==> r == Ok::<bool, String>(true),
        (code == Some(126i32) || code == Some(127i32)) ==> (r matches Err(e) && e@
            == "Authentication was cancelled or failed"@),
        code != Some(0i32) && code != Some(126i32) && code != Some(127i32) ==> r == Ok::<
            bool,
            String,
        >(false),
{
    match code {
        Some(0) => Ok(true),
        Some(126) | Some(127) => Err("Authentication was cancelled or failed".to_owned()),
        _ => Ok(false),
    }
}

/// What an `osascript` exit code means: 0 success, 1 a cancelled
/// authentication, anything else a helper that ran and failed.
pub fn osascript_status(code: Option<i32>) -> (r: Result<bool, String>)
    ensures
        code == Some(0i32) ==> r == Ok::<bool, String>(true),
        code == Some(1i32) ==> (r matches Err(e) && e@ == "Authentication was cancelled"@),
        code != Some(0i32) && code != Some(1i32) ==> r == Ok::<bool, String>(false),
{
    match code {
        Some(0) => Ok(true),
        Some(1) => Err("Authentication was cancelled".to_owned()),
        _ => Ok(false),
    }
}

/// `s` with each `'` written as `'\''`.
pub open spec fn sh_escaped(s: Seq<char>) -> Seq<char>
    decreases s.len(),
{
    if s.len() == 0 {
        seq![]
    } else {
        sh_escaped(s.drop_last()) + if s.last() == '\'' {
            seq!['\'', '\\', '\'', '\'']
        } else {
            seq![s.last()]
        }
    }
}

/// `s` with `\` doubled and `"` escaped.
pub open spec fn applescript_escaped(s: Seq<char>) -> Seq<char>
    decreases s.len(),
{
    if s.len() == 0 {
        seq![]
    } else {
        applescript_escaped(s.drop_last()) + if s.last() == '\\' {
            seq!['\\', '\\']
        } else if s.last() == '"' {
            seq!['\\', '"']
        } else {
            seq![s.last()]
        }
    }
}

/// Shell escaping works character by character: it spreads over
/// concatenation, leaves every character but `'` as it is, and writes `'`
/// as `'\''` (close the quote, an escaped quote, reopen).
pub proof fn lemma_sh_escaping(a: Seq<char>, b: Seq<char>, c: char)
    ensures
        sh_escaped(a + b) == sh_escaped(a) + sh_escaped(b),
        c != '\'' ==> sh_escaped(seq![c]) == seq![c],
        sh_escaped(seq!['\'']) == seq!['\'', '\\', '\'', '\''],
        (forall|i: int| 0 <= i < a.len() ==> a[i] != '\'') ==> sh_escaped(a) == a,
    decreases b.len(),
{
    assert(seq![c].drop_last() =~= Seq::<char>::empty());
    assert(seq!['\''].drop_last() =~= Seq::<char>::empty());
    let e = Seq::<char>::empty();
    assert(sh_escaped(e) == e);
    assert(seq![c].last() == c);
    assert(seq!['\''].last() == '\'');
    assert(e + seq!['\'', '\\', '\'', '\''] =~= seq!['\'', '\\', '\'', '\'']);
    assert(e + seq![c] =~= seq![c]);
    assert(sh_escaped(seq!['\'']) == sh_escaped(e) + seq!['\'', '\\', '\'', '\'']);
    if b.len() > 0 {
        lemma_sh_escaping(a, b.drop_last(), c);
        assert((a + b).drop_last() =~= a + b.drop_last());
        assert((a + b).last() == b.last());
    } else {
        assert(a + b =~= a);
    }
    if forall|i: int| 0 <= i < a.len() ==> a[i] != '\'' {
        lemma_sh_no_quote(a);
    }
}

proof fn lemma_sh_no_quote(a: Seq<char>)
    requires
        forall|i: int| 0 <= i < a.len() ==> a[i] != '\'',
    ensures
        sh_escaped(a) == a,
    decreases a.len(),
{
    if a.len() > 0 {
        assert forall|i: int| 0 <= i < a.drop_last().len() implies a.drop_last()[i] != '\'' by {
            assert(a.drop_last()[i] == a[i]);
        }
        lemma_sh_no_quote(a.drop_last());
        assert(a.last() == a[a.len() - 1]);
        assert(a.drop_last() + seq![a.last()] =~= a);
    }
}

/// AppleScript escaping works character by character: it spreads over
/// concatenation, writes `\` as `\\` and `"` as `\"`, and leaves every
/// other character as it is.
pub proof fn lemma_applescript_escaping(a: Seq<char>, b: Seq<char>, c: char)
    ensures
        applescript_escaped(a + b) == applescript_escaped(a) + applescript_escaped(b),
        c != '\\' && c != '"' ==> applescript_escaped(seq![c]) == seq![c],
        applescript_escaped(seq!['\\']) == seq!['\\', '\\'],
        applescript_escaped(seq!['"']) == seq!['\\', '"'],
    decreases b.len(),
{
    assert(seq![c].drop_last() =~= Seq::<char>::empty());
    assert(seq!['\\'].drop_last() =~= Seq::<char>::empty());
    assert(seq!['"'].drop_last() =~= Seq::<char>::empty());
    let e = Seq::<char>::empty();
    assert(applescript_escaped(e) == e);
    assert(seq![c].last() == c);
    assert(seq!['\\'].last() == '\\');
    assert(seq!['"'].last() == '"');
    assert(e + seq!['\\', '\\'] =~= seq!['\\', '\\']);
    assert(e + seq!['\\', '"'] =~= seq!['\\', '"']);
    assert(e + seq![c] =~= seq![c]);
    assert(applescript_escaped(seq!['\\']) == applescript_escaped(e) + seq!['\\', '\\']);
    assert(applescript_escaped(seq!['"']) == applescript_escaped(e) + seq!['\\', '"']);
    if b.len() > 0 {
        lemma_applescript_escaping(a, b.drop_last(), c);
        assert((a + b).drop_last() =~= a + b.drop_last());
        assert((a + b).last() == b.last());
    } else {
        assert(a + b =~= a);
    }
}

/// A path single-quoted for `/bin/sh`.
pub fn sh_quote(p: &str) -> (r: String)
    ensures
        r@ == seq!['\''] + sh_escaped(p@) + seq!['\''],
{
    let v = text::chars_of(p);
    let mut s = String::new();
    text::push_char(&mut s, '\'');
    let mut i: usize = 0;
    while i < v.len()
        invariant
            i <= v@.len(),
            v@ == p@,
            s@ == seq!['\''] + sh_escaped(v@.take(i as int)),
        decreases v.len() - i,
    {
        let c = v[i];
        if c == '\'' {
            text::push_char(&mut s, '\'');
            text::push_char(&mut s, '\\');
            text::push_char(&mut s, '\'');
            text::push_char(&mut s, '\'');
        } else {
            text::push_char(&mut s, c);
        }
        assert(v@.take(i + 1).drop_last() =~= v@.take(i as int));
        i += 1;
        assert(s@ =~= seq!['\''] + sh_escaped(v@.take(i as int)));
    }
    assert(v@.take(v@.len() as int) =~= v@);
    text::push_char(&mut s, '\'');
    s
}

/// `s` escaped for an AppleScript string literal.
pub fn applescript_escape(s: &str) -> (r: String)
    ensures
        r@ == applescript_escaped(s@),
{
    let v = text::chars_of(s);
    let mut out = String::new();
    let mut i: usize = 0;
    while i < v.len()
        invariant
            i <= v@.len(),
            v@ == s@,
            out@ == applescript_escaped(v@.take(i as int)),
        decreases v.len() - i,
    {
        let c = v[i];
        if c == '\\' {
            text::push_char(&mut out, '\\');
            text::push_char(&mut out, '\\');
        } else if c == '"' {
            text::push_char(&mut out, '\\');
            text::push_char(&mut out, '"');
        } else {
            text::push_char(&mut out, c);
        }
        assert(v@.take(i + 1).drop_last() =~= v@.take(i as int));
        i += 1;
        assert(out@ =~= applescript_escaped(v@.take(i as int)));
    }
    assert(v@.take(v@.len() as int) =~= v@);
    out
}

/// The shell line that runs the helper with its arguments, each quoted.
pub open spec fn helper_command(args: Seq<Seq<char>>) -> Seq<char>
    decreases args.len(),
{
    if args.len() == 0 {
        seq![]
    } else if args.len() == 1 {
        seq!['\''] + sh_escaped(args[0]) + seq!['\'']
    } else {
        helper_command(args.drop_last()) + seq![' '] + seq!['\''] + sh_escaped(args.last())
            + seq!['\'']
    }
}

/// The AppleScript that runs the helper through the privileged shell, which
/// offers Touch ID on supported Macs.
pub fn elevation_script(args: &Vec<String>) -> (r: String)
    ensures
        r@ == "do shell script \""@ + applescript_escaped(
            helper_command(args@.map_values(|a: String| a@)),
        ) + "\" with administrator privileges"@,
{
    let ghost av = args@.map_values(|a: String| a@);
    let mut cmd = String::new();
    let mut i: usize = 0;
    while i < args.len()
        invariant
            i <= args@.len(),
            av == args@.map_values(|a: String| a@),
            cmd@ == helper_command(av.take(i as int)),
        decreases args.len() - i,
    {
        let q = sh_quote(args[i].as_str());
        if i > 0 {
            text::push_char(&mut cmd, ' ');
        }
        let qv = text::chars_of(q.as_str());
        text::push_chars(&mut cmd, qv.as_slice());
        assert(av.take(i + 1).drop_last() =~= av.take(i as int));
        assert(av.take(i + 1).last() == args@[i as int]@);
        i += 1;
        proof {
            if i == 1 {
                assert(av.take(0) =~= Seq::<Seq<char>>::empty());
            }
        }
        assert(cmd@ =~= helper_command(av.take(i as int)));
    }
    assert(av.take(av.len() as int) =~= av);
    let mut script = "do shell script \"".to_owned();
    let escaped = applescript_escape(cmd.as_str());
    text::push_str(&mut script, escaped.as_str());
    text::push_str(&mut script, "\" with administrator privileges");
    script
}

} // verus!
