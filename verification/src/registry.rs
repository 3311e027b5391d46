//! The registry client's logic: where its requests go, what a failed
//! request means, and how a version specification (exact, `^`, `~`, `>=`,
//! `x` wildcards, `latest`) picks one of a package's published versions.
use vstd::prelude::*;
use crate::error::{CNodeError, ErrorKind, string_result_view};
use crate::package::{PackageMetadata, PackageVersion};
use crate::strmap::{StringMap, entries_map, distinct_keys, lemma_entries_map_dom};
use crate::text::{
    chars_of, concat, decimal_chars, decimal_text, is_digit, lemma_lex_irreflexive, lemma_lex_total,
    lemma_lex_transitive, lemma_split_nonempty, lex_less, lex_lt, owned, parse_or_zero, parse_u32,
    parse_u32_spec, split_chars, split_on, string_from_chars, str_eq, tail_from, head_to, append_chars,
};

verus! {

/// The registry used when none is configured.
pub open spec fn default_registry_url() -> Seq<char> {
    "https://registry.npmjs.org"@
}

/// The number in piece `i` of a dotted version, read as by
/// `str::parse::<u32>`, with 0 for a missing or unreadable piece.
pub open spec fn part_number(parts: Seq<Seq<char>>, i: int) -> u32 {
    if 0 <= i < parts.len() {
        parse_or_zero(parts[i])
    } else {
        0
    }
}

/// `version` has the same major number as `base`, and, unless minor
/// changes are allowed, the same minor number.
pub open spec fn compatible(version: Seq<char>, base: Seq<char>, allow_minor: bool) -> bool {
    let v = split_on(version, '.');
    let b = split_on(base, '.');
    part_number(v, 0) == part_number(b, 0) && (allow_minor || part_number(v, 1) == part_number(b, 1))
}

/// The numbers of the dotted pieces that read as numbers, in order; the
/// other pieces are skipped.
pub open spec fn numbers_of(parts: Seq<Seq<char>>) -> Seq<u32>
    decreases parts.len(),
{
    if parts.len() == 0 {
        Seq::empty()
    } else {
        let rest = numbers_of(parts.drop_last());
        match parse_u32_spec(parts.last()) {
            Some(n) => rest.push(n),
            None => rest,
        }
    }
}

/// The numbers of a dotted version.
pub open spec fn version_numbers(s: Seq<char>) -> Seq<u32> {
    numbers_of(split_on(s, '.'))
}

/// Number `i` of a version, 0 past its end.
pub open spec fn number_at(xs: Seq<u32>, i: int) -> u32 {
    if 0 <= i < xs.len() {
        xs[i]
    } else {
        0
    }
}

/// Compares two lists of numbers from position `i` on, the shorter one
/// padded with zeros: 1, 0 or -1.
pub open spec fn compare_from(x: Seq<u32>, y: Seq<u32>, i: int) -> int
    decreases x.len() + y.len() - i,
{
    if i >= x.len() && i >= y.len() {
        0
    } else if number_at(x, i) > number_at(y, i) {
        1
    } else if number_at(x, i) < number_at(y, i) {
        -1
    } else {
        compare_from(x, y, i + 1)
    }
}

/// The numeric order of two dotted versions: 1 when `a` is newer, -1 when
/// older, 0 when they denote the same numbers.
pub open spec fn compare_spec(a: Seq<char>, b: Seq<char>) -> int {
    compare_from(version_numbers(a), version_numbers(b), 0)
}

/// `a` comes before `b` in version order: it is numerically older, or
/// numerically equal and first as a string (so that versions such as `1.0`
/// and `1.0.0` still come in one fixed order).
pub open spec fn version_before(a: Seq<char>, b: Seq<char>) -> bool {
    compare_spec(a, b) < 0 || (compare_spec(a, b) == 0 && lex_lt(a, b))
}

/// A version matches a `^` or `~` base: it keeps the base's major number
/// (and, for `~`, its minor number) and is not older than the base.
pub open spec fn matches_base(v: Seq<char>, base: Seq<char>, allow_minor: bool) -> bool {
    compatible(v, base, allow_minor) && compare_spec(v, base) >= 0
}

/// `v` is a key of `keys` that matches the base, and no matching key comes
/// after it in version order: the newest matching version.
pub open spec fn is_greatest_compatible(keys: Set<Seq<char>>, v: Seq<char>, base: Seq<char>, allow_minor: bool) -> bool {
    &&& keys.contains(v)
    &&& matches_base(v, base, allow_minor)
    &&& forall|k: Seq<char>| keys.contains(k) && matches_base(k, base, allow_minor) ==> !version_before(v, k)
}

/// `v` is a key of `keys`, not older than `base`, and no such key comes
/// before it in version order: the oldest version at or above the base.
pub open spec fn is_least_at_least(keys: Set<Seq<char>>, v: Seq<char>, base: Seq<char>) -> bool {
    &&& keys.contains(v)
    &&& compare_spec(v, base) >= 0
    &&& forall|k: Seq<char>| keys.contains(k) && compare_spec(k, base) >= 0 ==> !version_before(k, v)
}

/// What a compatible-version search gives: the newest published version
/// that matches the base, or an invalid-version error naming the base.
pub open spec fn compatible_choice(keys: Set<Seq<char>>, base: Seq<char>, allow_minor: bool) -> Result<Seq<char>, (ErrorKind, Seq<char>)> {
    if exists|v: Seq<char>| is_greatest_compatible(keys, v, base, allow_minor) {
        Ok(choose|v: Seq<char>| is_greatest_compatible(keys, v, base, allow_minor))
    } else {
        Err((ErrorKind::InvalidVersion, base))
    }
}

/// What a minimum-version search gives: the oldest published version not
/// older than the base, or an invalid-version error naming the base.
pub open spec fn minimum_choice(keys: Set<Seq<char>>, base: Seq<char>) -> Result<Seq<char>, (ErrorKind, Seq<char>)> {
    if exists|v: Seq<char>| is_least_at_least(keys, v, base) {
        Ok(choose|v: Seq<char>| is_least_at_least(keys, v, base))
    } else {
        Err((ErrorKind::InvalidVersion, base))
    }
}

/// A character allowed in a wildcard specification such as `1.x`.
pub open spec fn wildcard_char(c: char) -> bool {
    is_digit(c) || c == '.' || c == 'x' || c == 'X'
}

/// The pieces of a wildcard specification without the `x` and `X` pieces.
pub open spec fn wildcard_pieces(parts: Seq<Seq<char>>) -> Seq<Seq<char>>
    decreases parts.len(),
{
    if parts.len() == 0 {
        Seq::empty()
    } else {
        let rest = wildcard_pieces(parts.drop_last());
        if parts.last() == seq!['x'] || parts.last() == seq!['X'] {
            rest
        } else {
            rest.push(parts.last())
        }
    }
}

/// The base version `major.minor.0` that a wildcard stands for.
pub open spec fn wildcard_base(pieces: Seq<Seq<char>>) -> Seq<char> {
    pieces[0] + seq!['.'] + (if pieces.len() > 1 {
        pieces[1]
    } else {
        seq!['0']
    }) + seq!['.', '0']
}

/// The message of a specification that matches nothing.
pub open spec fn unresolvable_message(spec: Seq<char>, name: Seq<char>) -> Seq<char> {
    "Cannot resolve version "@ + spec + " for "@ + name
}

/// The version that a specification picks among a package's published
/// versions (`keys`), its `latest` tag and its name:
/// - `*` and `latest` give the latest tag;
/// - a published version gives itself;
/// - `^v` gives the newest version not older than `v` with the major
///   number of `v`;
/// - `~v` the newest not older than `v` with its major and minor numbers;
/// - `>=v` the oldest version not older than `v`;
/// (versions are ordered by their numbers, see [`version_before`]);
/// - digits, dots and `x` pieces such as `1.x` or `1.2` give what `^1.0.0`
///   or `~1.2.0` would;
/// - anything else is an invalid version.
pub open spec fn resolve_spec(latest: Seq<char>, name: Seq<char>, keys: Set<Seq<char>>, spec: Seq<char>) -> Result<Seq<char>, (ErrorKind, Seq<char>)> {
    let pieces = wildcard_pieces(split_on(spec, '.'));
    if spec == "*"@ || spec == "latest"@ {
        Ok(latest)
    } else if keys.contains(spec) {
        Ok(spec)
    } else if spec.len() > 0 && spec[0] == '^' {
        compatible_choice(keys, spec.drop_first(), true)
    } else if spec.len() > 0 && spec[0] == '~' {
        compatible_choice(keys, spec.drop_first(), false)
    } else if spec.len() >= 2 && spec[0] == '>' && spec[1] == '=' {
        minimum_choice(keys, spec.skip(2))
    } else if (forall|i: int| 0 <= i < spec.len() ==> wildcard_char(#[trigger] spec[i])) && 0 < pieces.len()
        < 3 {
        compatible_choice(keys, wildcard_base(pieces), pieces.len() == 1)
    } else {
        Err((ErrorKind::InvalidVersion, unresolvable_message(spec, name)))
    }
}

proof fn lemma_compare_from_reflexive(x: Seq<u32>, i: int)
    ensures
        compare_from(x, x, i) == 0,
    decreases x.len() + x.len() - i,
{
    if !(i >= x.len()) {
        lemma_compare_from_reflexive(x, i + 1);
    }
}

proof fn lemma_compare_from_antisymmetric(x: Seq<u32>, y: Seq<u32>, i: int)
    ensures
        compare_from(x, y, i) == -compare_from(y, x, i),
    decreases x.len() + y.len() - i,
{
    if !(i >= x.len() && i >= y.len()) && number_at(x, i) == number_at(y, i) {
        lemma_compare_from_antisymmetric(x, y, i + 1);
    }
}

proof fn lemma_compare_from_step(x: Seq<u32>, y: Seq<u32>, i: int)
    requires
        number_at(x, i) == number_at(y, i),
    ensures
        compare_from(x, y, i) == compare_from(x, y, i + 1),
{
    if i >= x.len() && i >= y.len() {
        assert(i + 1 >= x.len() && i + 1 >= y.len());
    }
}

proof fn lemma_compare_from_transitive(x: Seq<u32>, y: Seq<u32>, z: Seq<u32>, i: int)
    requires
        compare_from(x, y, i) <= 0,
        compare_from(y, z, i) <= 0,
    ensures
        compare_from(x, z, i) <= 0,
    decreases x.len() + y.len() + z.len() - i,
{
    if i >= x.len() && i >= z.len() {
    } else if number_at(x, i) < number_at(z, i) {
    } else {
        if number_at(x, i) > number_at(y, i) {
            assert(!(i >= x.len() && i >= y.len()));
        }
        if number_at(y, i) > number_at(z, i) {
            assert(!(i >= y.len() && i >= z.len()));
        }
        assert(number_at(x, i) <= number_at(y, i) && number_at(y, i) <= number_at(z, i)) by {
            if number_at(x, i) > number_at(y, i) {
                assert(compare_from(x, y, i) == 1);
            }
            if number_at(y, i) > number_at(z, i) {
                assert(compare_from(y, z, i) == 1);
            }
        }
        lemma_compare_from_step(x, y, i);
        lemma_compare_from_step(y, z, i);
        lemma_compare_from_step(x, z, i);
        lemma_compare_from_transitive(x, y, z, i + 1);
    }
}

/// Every version compares equal to itself.
pub proof fn lemma_compare_reflexive(a: Seq<char>)
    ensures
        compare_spec(a, a) == 0,
{
    lemma_compare_from_reflexive(version_numbers(a), 0);
}

/// Swapping the operands of a comparison flips its sign.
pub proof fn lemma_compare_antisymmetric(a: Seq<char>, b: Seq<char>)
    ensures
        compare_spec(a, b) == -compare_spec(b, a),
{
    lemma_compare_from_antisymmetric(version_numbers(a), version_numbers(b), 0);
}

/// "Not newer than" is transitive.
pub proof fn lemma_compare_transitive(a: Seq<char>, b: Seq<char>, c: Seq<char>)
    requires
        compare_spec(a, b) <= 0,
        compare_spec(b, c) <= 0,
    ensures
        compare_spec(a, c) <= 0,
{
    lemma_compare_from_transitive(version_numbers(a), version_numbers(b), version_numbers(c), 0);
}

/// A version that keeps major and minor number also keeps the major one:
/// what `~` accepts, `^` accepts too.
pub proof fn lemma_tilde_within_caret(version: Seq<char>, base: Seq<char>)
    requires
        compatible(version, base, false),
    ensures
        compatible(version, base, true),
{
}

/// The comparison of two versions is -1, 0 or 1.
proof fn lemma_compare_from_range(x: Seq<u32>, y: Seq<u32>, i: int)
    ensures
        -1 <= compare_from(x, y, i) <= 1,
    decreases x.len() + y.len() - i,
{
    if !(i >= x.len() && i >= y.len()) && number_at(x, i) == number_at(y, i) {
        lemma_compare_from_range(x, y, i + 1);
    }
}

/// Version order is a strict total order: irreflexive, transitive, and
/// any two different versions come one before the other.
pub proof fn lemma_version_order(a: Seq<char>, b: Seq<char>, c: Seq<char>)
    ensures
        !version_before(a, a),
        version_before(a, b) && version_before(b, c) ==> version_before(a, c),
        a == b || version_before(a, b) || version_before(b, a),
        !(version_before(a, b) && version_before(b, a)),
{
    lemma_compare_reflexive(a);
    lemma_lex_irreflexive(a);
    lemma_compare_antisymmetric(a, b);
    lemma_compare_antisymmetric(b, c);
    lemma_compare_antisymmetric(a, c);
    lemma_lex_total(a, b);
    if version_before(a, b) && version_before(b, c) {
        lemma_compare_transitive(a, b, c);
        if compare_spec(a, c) == 0 {
            lemma_compare_transitive(c, a, b);
            lemma_compare_transitive(b, c, a);
            lemma_lex_transitive(a, b, c);
        }
    }
    if version_before(a, b) && version_before(b, a) {
        lemma_lex_transitive(a, b, a);
    }
}

proof fn lemma_greatest_unique(keys: Set<Seq<char>>, v: Seq<char>, w: Seq<char>, base: Seq<char>, allow_minor: bool)
    requires
        is_greatest_compatible(keys, v, base, allow_minor),
        is_greatest_compatible(keys, w, base, allow_minor),
    ensures
        v == w,
{
    lemma_version_order(v, w, v);
}

proof fn lemma_least_unique(keys: Set<Seq<char>>, v: Seq<char>, w: Seq<char>, base: Seq<char>)
    requires
        is_least_at_least(keys, v, base),
        is_least_at_least(keys, w, base),
    ensures
        v == w,
{
    lemma_version_order(v, w, v);
}

/// Among finitely many versions, when some version matches a `^`/`~` base,
/// one of them is the newest matching version.
proof fn lemma_newest_match_exists(keys: Set<Seq<char>>, base: Seq<char>, allow_minor: bool, k: Seq<char>)
    requires
        keys.finite(),
        keys.contains(k),
        matches_base(k, base, allow_minor),
    ensures
        exists|v: Seq<char>| is_greatest_compatible(keys, v, base, allow_minor),
    decreases keys.len(),
{
    let x = keys.choose();
    let rest = keys.remove(x);
    if exists|y: Seq<char>| rest.contains(y) && matches_base(y, base, allow_minor) {
        let y = choose|y: Seq<char>| rest.contains(y) && matches_base(y, base, allow_minor);
        lemma_newest_match_exists(rest, base, allow_minor, y);
        let w = choose|w: Seq<char>| is_greatest_compatible(rest, w, base, allow_minor);
        if matches_base(x, base, allow_minor) && version_before(w, x) {
            assert forall|q: Seq<char>| keys.contains(q) && matches_base(q, base, allow_minor) implies !version_before(x, q) by {
                lemma_version_order(x, q, x);
                if q != x {
                    assert(rest.contains(q));
                    lemma_version_order(w, x, q);
                }
            }
            assert(is_greatest_compatible(keys, x, base, allow_minor));
        } else {
            assert forall|q: Seq<char>| keys.contains(q) && matches_base(q, base, allow_minor) implies !version_before(w, q) by {
                if q != x {
                    assert(rest.contains(q));
                }
            }
            assert(is_greatest_compatible(keys, w, base, allow_minor));
        }
    } else {
        assert(k == x);
        assert forall|q: Seq<char>| keys.contains(q) && matches_base(q, base, allow_minor) implies !version_before(x, q) by {
            if q != x {
                assert(rest.contains(q));
            }
            lemma_version_order(x, x, x);
        }
        assert(is_greatest_compatible(keys, x, base, allow_minor));
    }
}

/// `^v` and `~v` (when `v` with its sign is not itself a published
/// version) resolve to the newest published version that keeps the major
/// number of `v` (for `~`, also its minor number; the patch number is
/// free) and is not older than `v`: whenever some published version `k`
/// qualifies, the resolution succeeds, its result qualifies, and `k` is not
/// newer than it.
pub proof fn lemma_caret_tilde_pick_newest(
    latest: Seq<char>,
    name: Seq<char>,
    keys: Set<Seq<char>>,
    spec: Seq<char>,
    k: Seq<char>,
)
    requires
        keys.finite(),
        spec.len() > 0,
        spec[0] == '^' || spec[0] == '~',
        !keys.contains(spec),
        keys.contains(k),
        compatible(k, spec.drop_first(), spec[0] == '^'),
        compare_spec(k, spec.drop_first()) >= 0,
    ensures
        resolve_spec(latest, name, keys, spec) is Ok,
        keys.contains(resolve_spec(latest, name, keys, spec)->Ok_0),
        compatible(resolve_spec(latest, name, keys, spec)->Ok_0, spec.drop_first(), spec[0] == '^'),
        compare_spec(resolve_spec(latest, name, keys, spec)->Ok_0, spec.drop_first()) >= 0,
        !version_before(resolve_spec(latest, name, keys, spec)->Ok_0, k),
{
    reveal_strlit("*");
    reveal_strlit("latest");
    assert(spec != "*"@ && spec != "latest"@) by {
        assert(("*"@)[0] == '*');
        assert(("latest"@)[0] == 'l');
    }
    let base = spec.drop_first();
    let allow = spec[0] == '^';
    lemma_newest_match_exists(keys, base, allow, k);
    let v = choose|v: Seq<char>| is_greatest_compatible(keys, v, base, allow);
    assert(is_greatest_compatible(keys, v, base, allow));
    assert(resolve_spec(latest, name, keys, spec) == compatible_choice(keys, base, allow));
}

/// Among finitely many versions, when some version is not older than a
/// base, one of them is the oldest such version.
proof fn lemma_oldest_at_least_exists(keys: Set<Seq<char>>, base: Seq<char>, k: Seq<char>)
    requires
        keys.finite(),
        keys.contains(k),
        compare_spec(k, base) >= 0,
    ensures
        exists|v: Seq<char>| is_least_at_least(keys, v, base),
    decreases keys.len(),
{
    let x = keys.choose();
    let rest = keys.remove(x);
    if exists|y: Seq<char>| rest.contains(y) && compare_spec(y, base) >= 0 {
        let y = choose|y: Seq<char>| rest.contains(y) && compare_spec(y, base) >= 0;
        lemma_oldest_at_least_exists(rest, base, y);
        let w = choose|w: Seq<char>| is_least_at_least(rest, w, base);
        if compare_spec(x, base) >= 0 && version_before(x, w) {
            assert forall|q: Seq<char>| keys.contains(q) && compare_spec(q, base) >= 0 implies !version_before(q, x) by {
                lemma_version_order(x, q, x);
                if q != x {
                    assert(rest.contains(q));
                    lemma_version_order(q, x, w);
                }
            }
            assert(is_least_at_least(keys, x, base));
        } else {
            assert forall|q: Seq<char>| keys.contains(q) && compare_spec(q, base) >= 0 implies !version_before(q, w) by {
                if q != x {
                    assert(rest.contains(q));
                }
            }
            assert(is_least_at_least(keys, w, base));
        }
    } else {
        assert(k == x);
        assert forall|q: Seq<char>| keys.contains(q) && compare_spec(q, base) >= 0 implies !version_before(q, x) by {
            if q != x {
                assert(rest.contains(q));
            }
            lemma_version_order(x, x, x);
        }
        assert(is_least_at_least(keys, x, base));
    }
}

/// `>=v` (when it is not itself a published version) resolves to the
/// oldest published version not older than `v`: whenever some published
/// version `k` is not older than `v`, the resolution succeeds, its result
/// is a published version not older than `v`, and `k` is not older than
/// it.
pub proof fn lemma_at_least_picks_oldest(
    latest: Seq<char>,
    name: Seq<char>,
    keys: Set<Seq<char>>,
    spec: Seq<char>,
    k: Seq<char>,
)
    requires
        keys.finite(),
        spec.len() >= 2,
        spec[0] == '>',
        spec[1] == '=',
        !keys.contains(spec),
        keys.contains(k),
        compare_spec(k, spec.skip(2)) >= 0,
    ensures
        resolve_spec(latest, name, keys, spec) is Ok,
        keys.contains(resolve_spec(latest, name, keys, spec)->Ok_0),
        compare_spec(resolve_spec(latest, name, keys, spec)->Ok_0, spec.skip(2)) >= 0,
        !version_before(k, resolve_spec(latest, name, keys, spec)->Ok_0),
{
    reveal_strlit("*");
    reveal_strlit("latest");
    assert(spec != "*"@ && spec != "latest"@) by {
        assert(("*"@)[0] == '*');
        assert(("latest"@)[0] == 'l');
    }
    let base = spec.skip(2);
    lemma_oldest_at_least_exists(keys, base, k);
    let v = choose|v: Seq<char>| is_least_at_least(keys, v, base);
    assert(is_least_at_least(keys, v, base));
    assert(resolve_spec(latest, name, keys, spec) == minimum_choice(keys, base));
}

/// What a resolution gives, when it succeeds, is one of the published
/// versions (the `*` and `latest` specifications excepted, which give the
/// latest tag), and it satisfies the specification: `^` keeps the major
/// number, `~` the major and minor numbers, both are not older than their
/// base, and `>=` is not older; `^` and `~` give the newest such version
/// and `>=` the oldest.
pub proof fn lemma_resolution_satisfies_spec(
    latest: Seq<char>,
    name: Seq<char>,
    keys: Set<Seq<char>>,
    spec: Seq<char>,
)
    requires
        resolve_spec(latest, name, keys, spec) is Ok,
        spec != "*"@,
        spec != "latest"@,
    ensures
        keys.contains(resolve_spec(latest, name, keys, spec)->Ok_0),
        !keys.contains(spec) && spec.len() > 0 && spec[0] == '^' ==> matches_base(
            resolve_spec(latest, name, keys, spec)->Ok_0,
            spec.drop_first(),
            true,
        ),
        !keys.contains(spec) && spec.len() > 0 && spec[0] == '~' ==> matches_base(
            resolve_spec(latest, name, keys, spec)->Ok_0,
            spec.drop_first(),
            false,
        ),
        !keys.contains(spec) && spec.len() >= 2 && spec[0] == '>' && spec[1] == '=' ==> compare_spec(
            resolve_spec(latest, name, keys, spec)->Ok_0,
            spec.skip(2),
        ) >= 0,
        !keys.contains(spec) && spec.len() > 0 && spec[0] == '^' ==> forall|k: Seq<char>|
            keys.contains(k) && matches_base(k, spec.drop_first(), true) ==> !version_before(
                resolve_spec(latest, name, keys, spec)->Ok_0,
                k,
            ),
        !keys.contains(spec) && spec.len() > 0 && spec[0] == '~' ==> forall|k: Seq<char>|
            keys.contains(k) && matches_base(k, spec.drop_first(), false) ==> !version_before(
                resolve_spec(latest, name, keys, spec)->Ok_0,
                k,
            ),
        !keys.contains(spec) && spec.len() >= 2 && spec[0] == '>' && spec[1] == '=' ==> forall|k: Seq<char>|
            keys.contains(k) && compare_spec(k, spec.skip(2)) >= 0 ==> !version_before(
                k,
                resolve_spec(latest, name, keys, spec)->Ok_0,
            ),
{
    let pieces = wildcard_pieces(split_on(spec, '.'));
    if keys.contains(spec) {
    } else if spec.len() > 0 && spec[0] == '^' {
        let v = choose|v: Seq<char>| is_greatest_compatible(keys, v, spec.drop_first(), true);
        assert(is_greatest_compatible(keys, v, spec.drop_first(), true));
    } else if spec.len() > 0 && spec[0] == '~' {
        let v = choose|v: Seq<char>| is_greatest_compatible(keys, v, spec.drop_first(), false);
        assert(is_greatest_compatible(keys, v, spec.drop_first(), false));
    } else if spec.len() >= 2 && spec[0] == '>' && spec[1] == '=' {
        let v = choose|v: Seq<char>| is_least_at_least(keys, v, spec.skip(2));
        assert(is_least_at_least(keys, v, spec.skip(2)));
    } else {
        let base = wildcard_base(pieces);
        let allow = pieces.len() == 1;
        let v = choose|v: Seq<char>| is_greatest_compatible(keys, v, base, allow);
        assert(is_greatest_compatible(keys, v, base, allow));
    }
}

/// A registry endpoint, with the timeout its requests use.
pub struct Registry {
    registry_url: String,
    timeout_secs: u64,
}

/// The number of piece `i` of a split version, 0 when missing or
/// unreadable.
fn piece_number(parts: &Vec<Vec<char>>, i: usize) -> (n: u32)
    ensures
        n == (if i < parts@.len() {
            parse_or_zero(parts@[i as int]@)
        } else {
            0
        }),
{
    if i < parts.len() {
        match parse_u32(parts[i].as_slice()) {
            Some(n) => n,
            None => 0,
        }
    } else {
        0
    }
}

/// The dotted pieces of a version.
fn version_pieces(s: &str) -> (parts: Vec<Vec<char>>)
    ensures
        parts@.len() == split_on(s@, '.').len(),
        forall|i: int| 0 <= i < parts@.len() ==> #[trigger] parts@[i]@ == split_on(s@, '.')[i],
{
    let chars = chars_of(s);
    split_chars(chars.as_slice(), '.')
}

/// The numbers of a dotted version, unreadable pieces skipped.
fn version_number_list(s: &str) -> (v: Vec<u32>)
    ensures
        v@ == version_numbers(s@),
{
    let parts = version_pieces(s);
    let ghost split = split_on(s@, '.');
    let mut out: Vec<u32> = Vec::new();
    let mut i: usize = 0;
    while i < parts.len()
        invariant
            i <= parts@.len(),
            parts@.len() == split.len(),
            split == split_on(s@, '.'),
            forall|j: int| 0 <= j < parts@.len() ==> #[trigger] parts@[j]@ == split[j],
            out@ == numbers_of(split.take(i as int)),
        decreases parts@.len() - i,
    {
        proof {
            assert(split.take(i + 1).drop_last() =~= split.take(i as int));
            assert(split.take(i + 1).last() == parts@[i as int]@);
        }
        match parse_u32(parts[i].as_slice()) {
            Some(n) => {
                out.push(n);
            },
            None => {},
        }
        i = i + 1;
    }
    assert(split.take(split.len() as int) =~= split);
    out
}

/// Whether every character may appear in a wildcard specification.
fn all_wildcard_chars(s: &[char]) -> (b: bool)
    ensures
        b == (forall|i: int| 0 <= i < s@.len() ==> wildcard_char(#[trigger] s@[i])),
{
    let mut i: usize = 0;
    while i < s.len()
        invariant
            i <= s@.len(),
            forall|j: int| 0 <= j < i ==> wildcard_char(#[trigger] s@[j]),
        decreases s@.len() - i,
    {
        let c = s[i];
        if !(('0' <= c && c <= '9') || c == '.' || c == 'x' || c == 'X') {
            assert(!wildcard_char(s@[i as int]));
            return false;
        }
        i = i + 1;
    }
    true
}

/// The pieces of a wildcard specification, the `x` and `X` pieces left out.
fn wildcard_piece_list(s: &[char]) -> (pieces: Vec<Vec<char>>)
    ensures
        pieces@.len() == wildcard_pieces(split_on(s@, '.')).len(),
        forall|i: int| 0 <= i < pieces@.len() ==> #[trigger] pieces@[i]@ == wildcard_pieces(split_on(s@, '.'))[i],
{
    let parts = split_chars(s, '.');
    let ghost split = split_on(s@, '.');
    let mut out: Vec<Vec<char>> = Vec::new();
    let mut i: usize = 0;
    while i < parts.len()
        invariant
            i <= parts@.len(),
            parts@.len() == split.len(),
            split == split_on(s@, '.'),
            forall|j: int| 0 <= j < parts@.len() ==> #[trigger] parts@[j]@ == split[j],
            out@.len() == wildcard_pieces(split.take(i as int)).len(),
            forall|j: int| 0 <= j < out@.len() ==> #[trigger] out@[j]@ == wildcard_pieces(split.take(i as int))[j],
        decreases parts@.len() - i,
    {
        let p = &parts[i];
        let is_x = p.len() == 1 && (p[0] == 'x' || p[0] == 'X');
        proof {
            assert(split.take(i + 1).drop_last() =~= split.take(i as int));
            assert(split.take(i + 1).last() == p@);
            if p@.len() == 1 && p@[0] == 'x' {
                assert(p@ =~= seq!['x']);
            }
            if p@.len() == 1 && p@[0] == 'X' {
                assert(p@ =~= seq!['X']);
            }
            assert(is_x == (p@ == seq!['x'] || p@ == seq!['X']));
        }
        if !is_x {
            let copy = head_to(p.as_slice(), p.len());
            assert(copy@ =~= p@);
            out.push(copy);
        }
        i = i + 1;
    }
    assert(split.take(split.len() as int) =~= split);
    out
}

impl Registry {
    /// A registry at the given address, or at the public npm registry.
    pub fn new(registry_url: Option<String>) -> (r: Registry)
        ensures
            r.url() == (match registry_url {
                Some(u) => u@,
                None => default_registry_url(),
            }),
            r.timeout() == 30,
    {
        let url = match registry_url {
            Some(u) => u,
            None => owned("https://registry.npmjs.org"),
        };
        Registry { registry_url: url, timeout_secs: 30 }
    }

    /// The registry's address.
    pub closed spec fn url(&self) -> Seq<char> {
        self.registry_url@
    }

    /// The timeout of a request, in seconds.
    pub closed spec fn timeout(&self) -> u64 {
        self.timeout_secs
    }

    /// The registry's address.
    pub fn registry_url(&self) -> (u: &str)
        ensures
            u@ == self.url(),
    {
        self.registry_url.as_str()
    }

    /// The timeout of a request, in seconds.
    pub fn timeout_secs(&self) -> (t: u64)
        ensures
            t == self.timeout(),
    {
        self.timeout_secs
    }

    /// Where a package's metadata is fetched: `{registry}/{name}`.
    pub fn metadata_url(&self, package_name: &str) -> (u: String)
        ensures
            u@ == self.url() + "/"@ + package_name@,
    {
        let mut u = concat(self.registry_url.as_str(), "/");
        u.append(package_name);
        u
    }

    /// Where one version of a package is fetched:
    /// `{registry}/{name}/{version}`.
    pub fn version_url(&self, package_name: &str, version: &str) -> (u: String)
        ensures
            u@ == self.url() + "/"@ + package_name@ + "/"@ + version@,
    {
        let mut u = self.metadata_url(package_name);
        u.append("/");
        u.append(version);
        u
    }

    /// Where a search goes: `{registry}/-/v1/search?text={query}&size={limit}`.
    pub fn search_url(&self, query: &str, limit: u64) -> (u: String)
        ensures
            u@ == self.url() + "/-/v1/search?text="@ + query@ + "&size="@ + decimal_text(limit as nat),
    {
        let mut u = concat(self.registry_url.as_str(), "/-/v1/search?text=");
        u.append(query);
        u.append("&size=");
        let digits = decimal_chars(limit);
        let d = string_from_chars(digits.as_slice());
        u.append(d.as_str());
        u
    }

    /// Where an audit request goes.
    pub fn audit_url(&self) -> (u: String)
        ensures
            u@ == self.url() + "/-/npm/v1/security/advisories/bulk"@,
    {
        concat(self.registry_url.as_str(), "/-/npm/v1/security/advisories/bulk")
    }

    /// The error for a metadata request the registry refused: the package
    /// is not found.
    pub fn metadata_refused(package_name: &str) -> (e: CNodeError)
        ensures
            e@ == (ErrorKind::PackageNotFound, package_name@),
    {
        CNodeError::PackageNotFound(owned(package_name))
    }

    /// The error for a version request the registry refused: an invalid
    /// version `name@version`.
    pub fn version_refused(package_name: &str, version: &str) -> (e: CNodeError)
        ensures
            e@ == (ErrorKind::InvalidVersion, package_name@ + "@"@ + version@),
    {
        let mut m = concat(package_name, "@");
        m.append(version);
        CNodeError::InvalidVersion(m)
    }

    /// The error for a search the registry refused.
    pub fn search_refused() -> (e: CNodeError)
        ensures
            e@ == (ErrorKind::Custom, "Search failed"@),
    {
        CNodeError::Custom(owned("Search failed"))
    }

    /// The error for an audit the registry refused, given the text of the
    /// answer's status.
    pub fn audit_refused(status: &str) -> (e: CNodeError)
        ensures
            e@ == (ErrorKind::Custom, "Audit request failed ("@ + status@ + ")"@),
    {
        let mut m = concat("Audit request failed (", status);
        m.append(")");
        CNodeError::Custom(m)
    }

    /// Whether `version` has the major number of `base` and, unless
    /// `allow_minor`, its minor number too.
    pub fn is_compatible(&self, version: &str, base: &str, allow_minor: bool) -> (r: bool)
        ensures
            r == compatible(version@, base@, allow_minor),
    {
        let v_parts = version_pieces(version);
        let b_parts = version_pieces(base);
        proof {
            lemma_split_nonempty(version@, '.');
            lemma_split_nonempty(base@, '.');
        }
        let v_major = piece_number(&v_parts, 0);
        let b_major = piece_number(&b_parts, 0);
        if v_major != b_major {
            return false;
        }
        if allow_minor {
            return true;
        }
        let v_minor = piece_number(&v_parts, 1);
        let b_minor = piece_number(&b_parts, 1);
        v_minor == b_minor
    }

    /// Compares two dotted versions number by number, the shorter padded
    /// with zeros and unreadable pieces skipped: 1, 0 or -1.
    pub fn compare_versions(&self, a: &str, b: &str) -> (r: i32)
        ensures
            r as int == compare_spec(a@, b@),
    {
        let x = version_number_list(a);
        let y = version_number_list(b);
        let n = if x.len() > y.len() {
            x.len()
        } else {
            y.len()
        };
        let mut i: usize = 0;
        while i < n
            invariant
                n == (if x@.len() > y@.len() {
                    x@.len()
                } else {
                    y@.len()
                }),
                i <= n,
                x@ == version_numbers(a@),
                y@ == version_numbers(b@),
                compare_from(x@, y@, 0) == compare_from(x@, y@, i as int),
            decreases n - i,
        {
            let a_v = if i < x.len() {
                x[i]
            } else {
                0
            };
            let b_v = if i < y.len() {
                y[i]
            } else {
                0
            };
            assert(a_v == number_at(x@, i as int));
            assert(b_v == number_at(y@, i as int));
            assert(!(i >= x@.len() && i >= y@.len()));
            if a_v > b_v {
                return 1;
            } else if a_v < b_v {
                return -1;
            }
            i = i + 1;
        }
        0
    }

    /// Whether version `a` comes before version `b`: see [`version_before`].
    fn comes_before(&self, a: &str, b: &str) -> (r: bool)
        ensures
            r == version_before(a@, b@),
    {
        let c = self.compare_versions(a, b);
        if c < 0 {
            true
        } else if c == 0 {
            let ca = chars_of(a);
            let cb = chars_of(b);
            lex_less(ca.as_slice(), cb.as_slice())
        } else {
            false
        }
    }

    /// The newest published version that keeps the major number of
    /// `base` (and, unless `allow_minor`, its minor number) and is not
    /// older than `base`; an invalid-version error naming `base` when there
    /// is none.
    pub fn find_compatible_version(&self, versions: &StringMap<PackageVersion>, base: &str, allow_minor: bool) -> (r: Result<String, CNodeError>)
        ensures
            string_result_view(r) == compatible_choice(versions@.dom(), base@, allow_minor),
    {
        let items = versions.entries();
        let mut best: Option<usize> = None;
        let mut i: usize = 0;
        while i < items.len()
            invariant
                i <= items@.len(),
                versions@ == entries_map(items@),
                distinct_keys(items@),
                best matches Some(b) ==> b < i && matches_base(items@[b as int].0@, base@, allow_minor) && forall|j: int|
                    0 <= j < i && matches_base(#[trigger] items@[j].0@, base@, allow_minor) ==> !version_before(
                        items@[b as int].0@,
                        items@[j].0@,
                    ),
                best is None ==> forall|j: int| 0 <= j < i ==> !matches_base(#[trigger] items@[j].0@, base@, allow_minor),
            decreases items@.len() - i,
        {
            let name = items[i].0.as_str();
            if self.is_compatible(name, base, allow_minor) && self.compare_versions(name, base) >= 0 {
                match best {
                    None => {
                        proof {
                            lemma_version_order(items@[i as int].0@, items@[i as int].0@, items@[i as int].0@);
                        }
                        best = Some(i);
                    },
                    Some(b) => {
                        if self.comes_before(items[b].0.as_str(), name) {
                            proof {
                                assert forall|j: int|
                                    0 <= j < i + 1 && matches_base(#[trigger] items@[j].0@, base@, allow_minor) implies !version_before(
                                    items@[i as int].0@,
                                    items@[j].0@,
                                ) by {
                                    lemma_version_order(items@[b as int].0@, items@[i as int].0@, items@[j].0@);
                                    lemma_version_order(items@[i as int].0@, items@[i as int].0@, items@[i as int].0@);
                                }
                            }
                            best = Some(i);
                        }
                    },
                }
            }
            i = i + 1;
        }
        let ghost keys = versions@.dom();
        match best {
            Some(b) => {
                let ghost v = items@[b as int].0@;
                proof {
                    lemma_entries_map_dom(items@, v);
                    assert forall|k: Seq<char>| keys.contains(k) && matches_base(k, base@, allow_minor) implies !version_before(v, k) by {
                        lemma_entries_map_dom(items@, k);
                        let j = choose|j: int| 0 <= j < items@.len() && items@[j].0@ == k;
                        assert(matches_base(items@[j].0@, base@, allow_minor));
                    }
                    assert(is_greatest_compatible(keys, v, base@, allow_minor));
                    let w = choose|w: Seq<char>| is_greatest_compatible(keys, w, base@, allow_minor);
                    lemma_greatest_unique(keys, v, w, base@, allow_minor);
                }
                Ok(items[b].0.clone())
            },
            None => {
                proof {
                    if exists|w: Seq<char>| is_greatest_compatible(keys, w, base@, allow_minor) {
                        let w = choose|w: Seq<char>| is_greatest_compatible(keys, w, base@, allow_minor);
                        lemma_entries_map_dom(items@, w);
                        let j = choose|j: int| 0 <= j < items@.len() && items@[j].0@ == w;
                        assert(!matches_base(items@[j].0@, base@, allow_minor));
                    }
                }
                Err(CNodeError::InvalidVersion(owned(base)))
            },
        }
    }

    /// The oldest published version not older than `base`; an
    /// invalid-version error naming `base` when there is none.
    pub fn find_minimum_version(&self, versions: &StringMap<PackageVersion>, base: &str) -> (r: Result<String, CNodeError>)
        ensures
            string_result_view(r) == minimum_choice(versions@.dom(), base@),
    {
        let items = versions.entries();
        let mut best: Option<usize> = None;
        let mut i: usize = 0;
        while i < items.len()
            invariant
                i <= items@.len(),
                versions@ == entries_map(items@),
                distinct_keys(items@),
                best matches Some(b) ==> b < i && compare_spec(items@[b as int].0@, base@) >= 0 && forall|j: int|
                    0 <= j < i && compare_spec(#[trigger] items@[j].0@, base@) >= 0 ==> !version_before(
                        items@[j].0@,
                        items@[b as int].0@,
                    ),
                best is None ==> forall|j: int| 0 <= j < i ==> compare_spec(#[trigger] items@[j].0@, base@) < 0,
            decreases items@.len() - i,
        {
            if self.compare_versions(items[i].0.as_str(), base) >= 0 {
                match best {
                    None => {
                        proof {
                            lemma_version_order(items@[i as int].0@, items@[i as int].0@, items@[i as int].0@);
                        }
                        best = Some(i);
                    },
                    Some(b) => {
                        if self.comes_before(items[i].0.as_str(), items[b].0.as_str()) {
                            proof {
                                assert forall|j: int|
                                    0 <= j < i + 1 && compare_spec(#[trigger] items@[j].0@, base@) >= 0 implies !version_before(
                                    items@[j].0@,
                                    items@[i as int].0@,
                                ) by {
                                    lemma_version_order(items@[j].0@, items@[i as int].0@, items@[b as int].0@);
                                }
                            }
                            best = Some(i);
                        }
                    },
                }
            }
            i = i + 1;
        }
        let ghost keys = versions@.dom();
        match best {
            Some(b) => {
                let ghost v = items@[b as int].0@;
                proof {
                    lemma_entries_map_dom(items@, v);
                    assert forall|k: Seq<char>| keys.contains(k) && compare_spec(k, base@) >= 0 implies !version_before(k, v) by {
                        lemma_entries_map_dom(items@, k);
                        let j = choose|j: int| 0 <= j < items@.len() && items@[j].0@ == k;
                        assert(compare_spec(items@[j].0@, base@) >= 0);
                    }
                    assert(is_least_at_least(keys, v, base@));
                    let w = choose|w: Seq<char>| is_least_at_least(keys, w, base@);
                    lemma_least_unique(keys, v, w, base@);
                }
                Ok(items[b].0.clone())
            },
            None => {
                proof {
                    if exists|w: Seq<char>| is_least_at_least(keys, w, base@) {
                        let w = choose|w: Seq<char>| is_least_at_least(keys, w, base@);
                        lemma_entries_map_dom(items@, w);
                        let j = choose|j: int| 0 <= j < items@.len() && items@[j].0@ == w;
                        assert(compare_spec(items@[j].0@, base@) < 0);
                    }
                }
                Err(CNodeError::InvalidVersion(owned(base)))
            },
        }
    }

    /// The version that `spec` picks among the package's published
    /// versions: see [`resolve_spec`].
    pub fn resolve_version_spec(&self, metadata: &PackageMetadata, spec: &str) -> (r: Result<String, CNodeError>)
        ensures
            string_result_view(r) == resolve_spec(
                metadata.dist_tags.latest@,
                metadata.name@,
                metadata.versions@.dom(),
                spec@,
            ),
    {
        let ghost pieces_spec = wildcard_pieces(split_on(spec@, '.'));
        if str_eq(spec, "*") || str_eq(spec, "latest") {
            return Ok(metadata.dist_tags.latest.clone());
        }
        if metadata.versions.contains_key(spec) {
            return Ok(owned(spec));
        }
        let sc = chars_of(spec);
        if sc.len() > 0 && sc[0] == '^' {
            let rest_chars = tail_from(sc.as_slice(), 1);
            let rest = string_from_chars(rest_chars.as_slice());
            assert(rest@ =~= spec@.drop_first());
            return self.find_compatible_version(&metadata.versions, rest.as_str(), true);
        }
        if sc.len() > 0 && sc[0] == '~' {
            let rest_chars = tail_from(sc.as_slice(), 1);
            let rest = string_from_chars(rest_chars.as_slice());
            assert(rest@ =~= spec@.drop_first());
            return self.find_compatible_version(&metadata.versions, rest.as_str(), false);
        }
        if sc.len() >= 2 && sc[0] == '>' && sc[1] == '=' {
            let rest_chars = tail_from(sc.as_slice(), 2);
            let rest = string_from_chars(rest_chars.as_slice());
            return self.find_minimum_version(&metadata.versions, rest.as_str());
        }
        if all_wildcard_chars(sc.as_slice()) {
            let pieces = wildcard_piece_list(sc.as_slice());
            if pieces.len() > 0 && pieces.len() < 3 {
                let mut base: Vec<char> = Vec::new();
                append_chars(&mut base, pieces[0].as_slice());
                base.push('.');
                if pieces.len() > 1 {
                    append_chars(&mut base, pieces[1].as_slice());
                } else {
                    base.push('0');
                }
                base.push('.');
                base.push('0');
                proof {
                    if pieces@.len() > 1 {
                        assert(base@ =~= pieces_spec[0] + seq!['.'] + pieces_spec[1] + seq!['.', '0']);
                    } else {
                        assert(base@ =~= pieces_spec[0] + seq!['.'] + seq!['0'] + seq!['.', '0']);
                    }
                    assert(base@ == wildcard_base(pieces_spec));
                }
                let b = string_from_chars(base.as_slice());
                return self.find_compatible_version(&metadata.versions, b.as_str(), pieces.len() == 1);
            }
        }
        let mut m = concat("Cannot resolve version ", spec);
        m.append(" for ");
        m.append(metadata.name.as_str());
        Err(CNodeError::InvalidVersion(m))
    }
}

} // verus!
