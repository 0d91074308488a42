//! Template interpolation: `{{ name }}` tokens are replaced by what the run
//! context, or else the environment, binds to the name.

use crate::benchmark::{looked_up, Context};
use crate::error::{text_result, HarrawError, HarrawErrorView};
use crate::text::{chars_of, is_digit, slice_of, string_of, text_eq};
use crate::value::{push_all, rendered, ValueView};
use vstd::prelude::*;

verus! {

/// An ASCII letter.
pub open spec fn is_letter(c: char) -> bool {
    ('a' <= c <= 'z') || ('A' <= c <= 'Z')
}

/// A character that may follow the first letter of a name.
pub open spec fn is_name_char(c: char) -> bool {
    is_letter(c) || is_digit(c) || c == '-' || c == '.' || c == '_' || c == '$' || c == '['
        || c == ']'
}

/// The first position at or after `p` that holds no space.
pub open spec fn spaces_end(s: Seq<char>, p: int) -> int
    decreases s.len() - p,
{
    if 0 <= p < s.len() && s[p] == ' ' {
        spaces_end(s, p + 1)
    } else {
        p
    }
}

/// The first position at or after `p` that holds no name character.
pub open spec fn name_end(s: Seq<char>, p: int) -> int
    decreases s.len() - p,
{
    if 0 <= p < s.len() && is_name_char(s[p]) {
        name_end(s, p + 1)
    } else {
        p
    }
}

/// Where a token's name stands and where the token ends.
pub struct Token {
    pub name_start: int,
    pub name_end: int,
    pub end: int,
}

/// The token that starts at `p`: two opening braces, any number of spaces, a name
/// that begins with a letter, any number of spaces, two closing braces.
pub open spec fn token_at(s: Seq<char>, p: int) -> Option<Token> {
    if 0 <= p && p + 2 <= s.len() && s[p] == '{' && s[p + 1] == '{' {
        let a = spaces_end(s, p + 2);
        if a < s.len() && is_letter(s[a]) {
            let b = name_end(s, a);
            let c = spaces_end(s, b);
            if c + 2 <= s.len() && s[c] == '}' && s[c + 1] == '}' {
                Some(Token { name_start: a, name_end: b, end: c + 2 })
            } else {
                None
            }
        } else {
            None
        }
    } else {
        None
    }
}

/// Whether a token starts anywhere in `s`.
pub open spec fn has_token(s: Seq<char>) -> bool {
    exists|p: int| (#[trigger] token_at(s, p)) is Some
}

/// What a name stands for.
pub enum Binding {
    /// The text that takes the token's place.
    Found(Seq<char>),
    /// Neither the context nor the environment binds the name.
    Unknown,
}

/// The value of the first environment variable called `name`.
pub open spec fn env_value(env: Seq<(Seq<char>, Seq<char>)>, name: Seq<char>) -> Option<Seq<char>>
    decreases env.len(),
{
    if env.len() == 0 {
        None
    } else if env[0].0 == name {
        Some(env[0].1)
    } else {
        env_value(env.drop_first(), name)
    }
}

/// What `name` stands for: the context is asked first, then the environment.
pub open spec fn binding(
    context: Map<Seq<char>, ValueView>,
    env: Seq<(Seq<char>, Seq<char>)>,
    name: Seq<char>,
) -> Binding {
    match looked_up(context, name) {
        Some(v) => Binding::Found(rendered(v)),
        None => match env_value(env, name) {
            Some(t) => Binding::Found(t),
            None => Binding::Unknown,
        },
    }
}

/// `front` followed by the text of `rest`, or the failure of `rest`.
pub open spec fn prepend(front: Seq<char>, rest: Result<Seq<char>, HarrawErrorView>) -> Result<
    Seq<char>,
    HarrawErrorView,
> {
    match rest {
        Ok(t) => Ok(front + t),
        Err(e) => Err(e),
    }
}

/// A token ends after the position at which it starts, within the text.
pub proof fn lemma_token_bounds(s: Seq<char>, p: int)
    ensures
        token_at(s, p) matches Some(t) ==> p + 2 <= t.name_start < t.name_end <= t.end - 2
            && t.end <= s.len(),
{
    if 0 <= p && p + 2 <= s.len() {
        lemma_spaces_end_bounds(s, p + 2);
        let a = spaces_end(s, p + 2);
        if a < s.len() && is_letter(s[a]) {
            lemma_name_end_bounds(s, a + 1);
            let b = name_end(s, a);
            lemma_spaces_end_bounds(s, b);
        }
    }
}

proof fn lemma_spaces_end_bounds(s: Seq<char>, p: int)
    requires
        0 <= p <= s.len(),
    ensures
        p <= spaces_end(s, p) <= s.len(),
    decreases s.len() - p,
{
    if p < s.len() && s[p] == ' ' {
        lemma_spaces_end_bounds(s, p + 1);
    }
}

proof fn lemma_name_end_bounds(s: Seq<char>, p: int)
    requires
        0 <= p <= s.len(),
    ensures
        p <= name_end(s, p) <= s.len(),
    decreases s.len() - p,
{
    if p < s.len() && is_name_char(s[p]) {
        lemma_name_end_bounds(s, p + 1);
    }
}

/// The text that `s` resolves to from position `p` on. Tokens are taken from left
/// to right. A found name gives its text; a name without binding fails the whole
/// resolution when `strict`, and gives nothing otherwise. Every character outside
/// a token stands for itself.
pub open spec fn resolved(
    s: Seq<char>,
    p: int,
    context: Map<Seq<char>, ValueView>,
    env: Seq<(Seq<char>, Seq<char>)>,
    strict: bool,
) -> Result<Seq<char>, HarrawErrorView>
    decreases s.len() - p,
{
    if p < 0 || p >= s.len() {
        Ok(Seq::empty())
    } else {
        match token_at(s, p) {
            Some(t) => {
                proof {
                    lemma_token_bounds(s, p);
                }
                let name = s.subrange(t.name_start, t.name_end);
                match binding(context, env, name) {
                    Binding::Found(text) => prepend(
                        text,
                        resolved(s, t.end, context, env, strict),
                    ),
                    Binding::Unknown => if strict {
                        Err(HarrawErrorView::UnknownVariable(name))
                    } else {
                        resolved(s, t.end, context, env, strict)
                    },
                }
            },
            None => prepend(seq![s[p]], resolved(s, p + 1, context, env, strict)),
        }
    }
}

/// The names, from position `p` on and from left to right, of the tokens for
/// which neither the context nor the environment has a binding.
pub open spec fn unresolved(
    s: Seq<char>,
    p: int,
    context: Map<Seq<char>, ValueView>,
    env: Seq<(Seq<char>, Seq<char>)>,
) -> Seq<Seq<char>>
    decreases s.len() - p,
{
    if p < 0 || p >= s.len() {
        Seq::empty()
    } else {
        match token_at(s, p) {
            Some(t) => {
                proof {
                    lemma_token_bounds(s, p);
                }
                let name = s.subrange(t.name_start, t.name_end);
                let rest = unresolved(s, t.end, context, env);
                if binding(context, env, name) is Unknown {
                    seq![name] + rest
                } else {
                    rest
                }
            },
            None => unresolved(s, p + 1, context, env),
        }
    }
}

fn skip_spaces(chars: &Vec<char>, p: usize) -> (q: usize)
    requires
        p <= chars.len(),
    ensures
        q == spaces_end(chars@, p as int),
        p <= q <= chars.len(),
{
    let mut q: usize = p;
    while q < chars.len() && chars[q] == ' '
        invariant
            p <= q <= chars.len(),
            spaces_end(chars@, p as int) == spaces_end(chars@, q as int),
        decreases chars.len() - q,
    {
        q += 1;
    }
    q
}

fn is_letter_char(c: char) -> (r: bool)
    ensures
        r == is_letter(c),
{
    ('a' <= c && c <= 'z') || ('A' <= c && c <= 'Z')
}

fn is_name_character(c: char) -> (r: bool)
    ensures
        r == is_name_char(c),
{
    is_letter_char(c) || ('0' <= c && c <= '9') || c == '-' || c == '.' || c == '_' || c == '$'
        || c == '[' || c == ']'
}

fn skip_name(chars: &Vec<char>, p: usize) -> (q: usize)
    requires
        p <= chars.len(),
    ensures
        q == name_end(chars@, p as int),
        p <= q <= chars.len(),
{
    let mut q: usize = p;
    while q < chars.len() && is_name_character(chars[q])
        invariant
            p <= q <= chars.len(),
            name_end(chars@, p as int) == name_end(chars@, q as int),
        decreases chars.len() - q,
    {
        q += 1;
    }
    q
}

/// The token that starts at `p`, as the positions of its name and of its end.
pub fn hrw_token_at(chars: &Vec<char>, p: usize) -> (r: Option<(usize, usize, usize)>)
    ensures
        match r {
            Some((a, b, e)) => token_at(chars@, p as int) == Some(
                Token { name_start: a as int, name_end: b as int, end: e as int },
            ) && p < a < b < e <= chars.len(),
            None => token_at(chars@, p as int) is None,
        },
{
    let n = chars.len();
    if n < 2 || p > n - 2 {
        return None;
    }
    if chars[p] != '{' || chars[p + 1] != '{' {
        return None;
    }
    let a = skip_spaces(chars, p + 2);
    if a >= n || !is_letter_char(chars[a]) {
        return None;
    }
    let b = skip_name(chars, a);
    let c = skip_spaces(chars, b);
    proof {
        lemma_token_bounds(chars@, p as int);
    }
    if n - c < 2 || chars[c] != '}' || chars[c + 1] != '}' {
        return None;
    }
    Some((a, b, c + 2))
}

/// Whether a `{{ name }}` token stands anywhere in `text`.
pub fn hrw_has_interpolation(text: &str) -> (r: bool)
    ensures
        r == has_token(text@),
{
    let chars = chars_of(text);
    let mut p: usize = 0;
    while p < chars.len()
        invariant
            p <= chars.len(),
            chars@ == text@,
            forall|q: int| 0 <= q < p ==> (#[trigger] token_at(chars@, q)) is None,
        decreases chars.len() - p,
    {
        if hrw_token_at(&chars, p).is_some() {
            return true;
        }
        p += 1;
    }
    assert forall|q: int| (#[trigger] token_at(chars@, q)) is None by {
        if q >= chars.len() {
        }
    }
    false
}

proof fn lemma_env_value_skip(env: Seq<(Seq<char>, Seq<char>)>, name: Seq<char>, k: int)
    requires
        0 <= k <= env.len(),
        forall|i: int| 0 <= i < k ==> (#[trigger] env[i]).0 != name,
    ensures
        env_value(env, name) == env_value(env.skip(k), name),
    decreases k,
{
    if k > 0 {
        assert(env[0].0 != name);
        assert(env.drop_first().skip(k - 1) =~= env.skip(k));
        assert forall|i: int| 0 <= i < k - 1 implies (#[trigger] env.drop_first()[i]).0
            != name by {
            assert(env.drop_first()[i] == env[i + 1]);
        }
        lemma_env_value_skip(env.drop_first(), name, k - 1);
    } else {
        assert(env.skip(0) =~= env);
    }
}

/// The value of the first variable called `name` in a snapshot of the environment.
pub fn hrw_env_value<'a>(env: &'a Vec<(String, String)>, name: &str) -> (r: Option<&'a String>)
    ensures
        r.deep_view() == env_value(env.deep_view(), name@),
{
    let mut i: usize = 0;
    while i < env.len()
        invariant
            i <= env.len(),
            forall|j: int| 0 <= j < i ==> (#[trigger] env.deep_view()[j]).0 != name@,
        decreases env.len() - i,
    {
        if text_eq(env[i].0.as_str(), name) {
            proof {
                lemma_env_value_skip(env.deep_view(), name@, i as int);
                assert(env.deep_view().skip(i as int)[0] == env.deep_view()[i as int]);
            }
            return Some(&env[i].1);
        }
        i += 1;
    }
    proof {
        lemma_env_value_skip(env.deep_view(), name@, i as int);
    }
    None
}

/// Resolves templates against one context and one snapshot of the environment.
pub struct HarrawInterpolator<'a> {
    pub context: &'a Context,
    pub environment: &'a Vec<(String, String)>,
}

impl<'a> HarrawInterpolator<'a> {
    /// An interpolator over `context`, with `environment` as the fallback.
    pub fn new(context: &'a Context, environment: &'a Vec<(String, String)>) -> (r:
        HarrawInterpolator<'a>)
        ensures
            r.context == context,
            r.environment == environment,
    {
        HarrawInterpolator { context, environment }
    }

    /// What `name` stands for in the context, as text.
    pub fn hrw_context_environment_interpolation(&self, name: &str) -> (r: Option<Vec<char>>)
        ensures
            match looked_up(self.context@, name@) {
                Some(v) => r matches Some(found) && found@ == rendered(v),
                None => r is None,
            },
    {
        match self.context.lookup(name) {
            Some(v) => Some(v.hrw_render()),
            None => None,
        }
    }

    /// What `name` stands for in the environment.
    pub fn hrw_resolve_environment_interpolation(&self, name: &str) -> (r: Option<Vec<char>>)
        ensures
            r.deep_view() == env_value(self.environment.deep_view(), name@),
    {
        match hrw_env_value(self.environment, name) {
            Some(v) => {
                let chars = chars_of(v.as_str());
                assert(chars.deep_view() =~= v@);
                Some(chars)
            },
            None => None,
        }
    }

    /// Replaces every token of `url` by what its name stands for.
    pub fn hrw_resolve(&self, url: &str, strict: bool) -> (r: Result<String, HarrawError>)
        ensures
            text_result(r) == resolved(
                url@,
                0,
                self.context@,
                self.environment.deep_view(),
                strict,
            ),
    {
        let chars = chars_of(url);
        let ghost context = self.context@;
        let ghost env = self.environment.deep_view();
        let ghost goal = resolved(url@, 0, context, env, strict);
        let mut out: Vec<char> = Vec::new();
        let mut p: usize = 0;
        assert(prepend(out@, resolved(url@, 0, context, env, strict)) =~= goal) by {
            match goal {
                Ok(t) => {
                    assert(out@ + t =~= t);
                },
                Err(e) => {},
            }
        }
        while p < chars.len()
            invariant
                p <= chars.len(),
                chars@ == url@,
                context == self.context@,
                env == self.environment.deep_view(),
                goal == resolved(url@, 0, context, env, strict),
                goal == prepend(out@, resolved(url@, p as int, context, env, strict)),
            decreases chars.len() - p,
        {
            let ghost before = out@;
            match hrw_token_at(&chars, p) {
                Some((a, b, e)) => {
                    let name = string_of(&slice_of(&chars, a, b));
                    let ghost rest = resolved(url@, e as int, context, env, strict);
                    let ghost here = resolved(url@, p as int, context, env, strict);
                    assert(name@ == url@.subrange(a as int, b as int));
                    assert(here == match binding(context, env, name@) {
                        Binding::Found(text) => prepend(text, rest),
                        Binding::Unknown => if strict {
                            Err(HarrawErrorView::UnknownVariable(name@))
                        } else {
                            rest
                        },
                    });
                    match self.hrw_context_environment_interpolation(name.as_str()) {
                        Some(text) => {
                            push_all(&mut out, &text);
                            proof {
                                if let Ok(t) = rest {
                                    assert(before + (text@ + t) =~= out@ + t);
                                }
                            }
                        },
                        None => match self.hrw_resolve_environment_interpolation(
                            name.as_str(),
                        ) {
                            Some(text) => {
                                assert(text.deep_view() =~= text@);
                                push_all(&mut out, &text);
                                proof {
                                    if let Ok(t) = rest {
                                        assert(before + (text@ + t) =~= out@ + t);
                                    }
                                }
                            },
                            None => {
                                if strict {
                                    return Err(HarrawError::UnknownVariable(name));
                                }
                            },
                        },
                    }
                    p = e;
                },
                None => {
                    out.push(chars[p]);
                    proof {
                        let rest = resolved(url@, p as int + 1, context, env, strict);
                        if let Ok(t) = rest {
                            assert(before + (seq![url@[p as int]] + t) =~= out@ + t);
                        }
                    }
                    p += 1;
                },
            }
        }
        assert(out@ + Seq::<char>::empty() =~= out@);
        Ok(string_of(&out))
    }

    /// The names in `url` for which relaxed resolution substitutes nothing, from
    /// left to right: one warning is due for each.
    pub fn hrw_unresolved(&self, url: &str) -> (names: Vec<String>)
        ensures
            names.deep_view() == unresolved(
                url@,
                0,
                self.context@,
                self.environment.deep_view(),
            ),
    {
        let chars = chars_of(url);
        let ghost context = self.context@;
        let ghost env = self.environment.deep_view();
        let mut names: Vec<String> = Vec::new();
        let mut p: usize = 0;
        assert(names.deep_view() + unresolved(url@, 0, context, env) =~= unresolved(
            url@,
            0,
            context,
            env,
        ));
        while p < chars.len()
            invariant
                p <= chars.len(),
                chars@ == url@,
                context == self.context@,
                env == self.environment.deep_view(),
                unresolved(url@, 0, context, env) == names.deep_view() + unresolved(
                    url@,
                    p as int,
                    context,
                    env,
                ),
            decreases chars.len() - p,
        {
            let ghost before = names.deep_view();
            match hrw_token_at(&chars, p) {
                Some((a, b, e)) => {
                    let name = string_of(&slice_of(&chars, a, b));
                    let ghost rest = unresolved(url@, e as int, context, env);
                    let known = match self.context.lookup(name.as_str()) {
                        Some(_) => true,
                        None => hrw_env_value(self.environment, name.as_str()).is_some(),
                    };
                    if !known {
                        let ghost n = name@;
                        names.push(name);
                        assert(names.deep_view() =~= before.push(n));
                        assert(before + (seq![n] + rest) =~= names.deep_view() + rest);
                    }
                    p = e;
                },
                None => {
                    p += 1;
                },
            }
        }
        assert(names.deep_view() + Seq::<Seq<char>>::empty() =~= names.deep_view());
        names
    }
}

proof fn lemma_plain_tail(
    s: Seq<char>,
    p: int,
    context: Map<Seq<char>, ValueView>,
    env: Seq<(Seq<char>, Seq<char>)>,
    strict: bool,
)
    requires
        !has_token(s),
        0 <= p <= s.len(),
    ensures
        resolved(s, p, context, env, strict) == Ok::<Seq<char>, HarrawErrorView>(s.skip(p)),
    decreases s.len() - p,
{
    if p < s.len() {
        assert(token_at(s, p) is None);
        lemma_plain_tail(s, p + 1, context, env, strict);
        assert(seq![s[p]] + s.skip(p + 1) =~= s.skip(p));
    } else {
        assert(s.skip(p) =~= Seq::<char>::empty());
    }
}

/// A text in which no token starts resolves to itself, whatever the context, the
/// environment and the policy are: braces that do not form a token are kept.
pub proof fn law_text_without_token_is_kept(
    s: Seq<char>,
    context: Map<Seq<char>, ValueView>,
    env: Seq<(Seq<char>, Seq<char>)>,
    strict: bool,
)
    requires
        !has_token(s),
    ensures
        resolved(s, 0, context, env, strict) == Ok::<Seq<char>, HarrawErrorView>(s),
{
    lemma_plain_tail(s, 0, context, env, strict);
    assert(s.skip(0) =~= s);
}

/// At a token whose name has no binding, strict resolution fails and names the
/// variable; relaxed resolution puts nothing in the token's place and goes on
/// behind it.
pub proof fn law_unbound_name(
    s: Seq<char>,
    p: int,
    context: Map<Seq<char>, ValueView>,
    env: Seq<(Seq<char>, Seq<char>)>,
)
    requires
        token_at(s, p) is Some,
        binding(
            context,
            env,
            s.subrange(token_at(s, p)->0.name_start, token_at(s, p)->0.name_end),
        ) is Unknown,
    ensures
        resolved(s, p, context, env, true) == Err::<Seq<char>, HarrawErrorView>(
            HarrawErrorView::UnknownVariable(
                s.subrange(token_at(s, p)->0.name_start, token_at(s, p)->0.name_end),
            ),
        ),
        resolved(s, p, context, env, false) == resolved(
            s,
            token_at(s, p)->0.end,
            context,
            env,
            false,
        ),
{
    lemma_token_bounds(s, p);
}

/// At a token whose name is bound, the bound text takes the token's place.
pub proof fn law_bound_name(
    s: Seq<char>,
    p: int,
    context: Map<Seq<char>, ValueView>,
    env: Seq<(Seq<char>, Seq<char>)>,
    strict: bool,
)
    requires
        token_at(s, p) is Some,
        binding(
            context,
            env,
            s.subrange(token_at(s, p)->0.name_start, token_at(s, p)->0.name_end),
        ) is Found,
    ensures
        resolved(s, p, context, env, strict) == prepend(
            binding(
                context,
                env,
                s.subrange(token_at(s, p)->0.name_start, token_at(s, p)->0.name_end),
            )->Found_0,
            resolved(s, token_at(s, p)->0.end, context, env, strict),
        ),
{
    lemma_token_bounds(s, p);
}

/// Relaxed resolution never fails for want of a binding.
pub proof fn law_relaxed_never_unknown(
    s: Seq<char>,
    p: int,
    context: Map<Seq<char>, ValueView>,
    env: Seq<(Seq<char>, Seq<char>)>,
)
    ensures
        !(resolved(s, p, context, env, false) matches Err(e) && e is UnknownVariable),
    decreases s.len() - p,
{
    if 0 <= p < s.len() {
        lemma_token_bounds(s, p);
        match token_at(s, p) {
            Some(t) => {
                law_relaxed_never_unknown(s, t.end, context, env);
            },
            None => {
                law_relaxed_never_unknown(s, p + 1, context, env);
            },
        }
    }
}

} // verus!
