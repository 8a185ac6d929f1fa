//! The exposition endpoint's serializer: turns a snapshot of the store into
//! the pull-based text format, one gauge block per registered key.
use vstd::prelude::*;
use crate::adapters::base::GaugeView;
use crate::adapters::base::Value;
use crate::store::MetricEntry;
use crate::store::MetricStore;
use crate::text::dec_digits;
use crate::text::digit_char;
use crate::text::i64_text;
use crate::text::i64_to_string;
use crate::text::is_digit;
use crate::text::is_float_text;
use crate::text::is_metric_name;
use crate::text::is_mantissa;
use crate::text::is_name_char;
use crate::text::is_name_start;
use crate::text::strip_sign;

verus! {

/// The text of one gauge value: the decimal digits of an integer gauge, or
/// the stored float text.
pub open spec fn gauge_text(v: GaugeView) -> Seq<char> {
    match v {
        GaugeView::Int(i) => i64_text(i),
        GaugeView::Float(t) => t,
    }
}

/// The sample line of one key: `key value`, without the trailing newline.
pub open spec fn metric_line(k: Seq<char>, v: GaugeView) -> Seq<char> {
    k + " "@ + gauge_text(v)
}

/// The full block of one key: a HELP comment, a TYPE comment declaring gauge
/// semantics, and the sample line.
pub open spec fn entry_block(k: Seq<char>, v: GaugeView) -> Seq<char> {
    "# HELP "@ + k + " Value of "@ + k + "\n"@ + "# TYPE "@ + k + " gauge\n"@ + metric_line(k, v)
        + "\n"@
}

/// The pairs an entry sequence exposes.
pub open spec fn pairs_of(s: Seq<MetricEntry>) -> Seq<(Seq<char>, GaugeView)> {
    s.map_values(|e: MetricEntry| (e.key@, e.value@))
}

/// The whole exposition body: the blocks of all entries, in order.
pub open spec fn render_spec(pairs: Seq<(Seq<char>, GaugeView)>) -> Seq<char>
    decreases pairs.len(),
{
    if pairs.len() == 0 {
        Seq::<char>::empty()
    } else {
        render_spec(pairs.drop_last()) + entry_block(pairs.last().0, pairs.last().1)
    }
}

/// Serializes a snapshot, as the endpoint does on each request.
#[verifier::rlimit(100)]
pub fn render(entries: &Vec<MetricEntry>) -> (r: String)
    ensures
        r@ == render_spec(pairs_of(entries@)),
{
    let n = entries.len();
    let mut r = String::new();
    let mut i: usize = 0;
    proof {
        assert(pairs_of(entries@.take(0)) =~= Seq::<(Seq<char>, GaugeView)>::empty());
        assert(r@ =~= render_spec(pairs_of(entries@.take(0))));
    }
    while i < n
        invariant
            0 <= i <= n,
            n == entries@.len(),
            r@ == render_spec(pairs_of(entries@.take(i as int))),
        decreases n - i,
    {
        let e = &entries[i];
        r.append("# HELP ");
        r.append(e.key.as_str());
        r.append(" Value of ");
        r.append(e.key.as_str());
        r.append("\n");
        r.append("# TYPE ");
        r.append(e.key.as_str());
        r.append(" gauge\n");
        r.append(e.key.as_str());
        r.append(" ");
        match &e.value {
            Value::Int(v) => {
                let t = i64_to_string(*v);
                r.append(t.as_str());
            },
            Value::Float(t) => {
                r.append(t.as_string().as_str());
            },
        }
        r.append("\n");
        i = i + 1;
        proof {
            assert(pairs_of(entries@.take(i as int)).drop_last() =~= pairs_of(
                entries@.take(i - 1),
            ));
            assert(pairs_of(entries@.take(i as int)).last() == (entries@[i - 1].key@,
            entries@[i - 1].value@));
            assert(r@ =~= render_spec(pairs_of(entries@.take(i as int))));
        }
    }
    proof {
        assert(entries@.take(n as int) =~= entries@);
    }
    r
}

/// Takes a snapshot of the store and serializes it: the exposition
/// endpoint's whole read path.
pub fn expose(store: &MetricStore) -> (r: String)
    ensures
        r@ == render_spec(store_pairs(*store)),
{
    let snap = store.snapshot();
    let r = render(&snap);
    proof {
        assert(pairs_of(snap@) =~= store_pairs(*store));
    }
    r
}

/// What the store currently exposes: each registered key, in registration
/// order, with its current value.
pub open spec fn store_pairs(s: MetricStore) -> Seq<(Seq<char>, GaugeView)> {
    Seq::new(s.keys_in_order().len(), |i: int| (s.keys_in_order()[i], s@[s.keys_in_order()[i]]))
}

// ---------------------------------------------------------------------------
// The shape of the exposition body: one sample line per key.
// ---------------------------------------------------------------------------

/// The HELP comment of one key, without its line break.
pub open spec fn help_text(k: Seq<char>) -> Seq<char> {
    "# HELP "@ + k + " Value of "@ + k
}

/// The TYPE comment of one key, without its line break.
pub open spec fn type_text(k: Seq<char>) -> Seq<char> {
    "# TYPE "@ + k + " gauge"@
}

/// The three lines of one key's block.
pub open spec fn block_lines(k: Seq<char>, v: GaugeView) -> Seq<Seq<char>> {
    seq![help_text(k), type_text(k), metric_line(k, v)]
}

/// Every line of the whole body, in order.
pub open spec fn exposition_lines(pairs: Seq<(Seq<char>, GaugeView)>) -> Seq<Seq<char>>
    decreases pairs.len(),
{
    if pairs.len() == 0 {
        Seq::<Seq<char>>::empty()
    } else {
        exposition_lines(pairs.drop_last()) + block_lines(pairs.last().0, pairs.last().1)
    }
}

/// Lines joined back into text, each ended by a line break.
pub open spec fn join_lines(lines: Seq<Seq<char>>) -> Seq<char>
    decreases lines.len(),
{
    if lines.len() == 0 {
        Seq::<char>::empty()
    } else {
        join_lines(lines.drop_last()) + lines.last() + "\n"@
    }
}

proof fn lemma_join_append(a: Seq<Seq<char>>, b: Seq<Seq<char>>)
    ensures
        join_lines(a + b) == join_lines(a) + join_lines(b),
    decreases b.len(),
{
    if b.len() == 0 {
        assert(a + b =~= a);
        assert(join_lines(a) + join_lines(b) =~= join_lines(a));
    } else {
        assert((a + b).drop_last() =~= a + b.drop_last());
        assert((a + b).last() == b.last());
        lemma_join_append(a, b.drop_last());
        assert(join_lines(a + b) =~= join_lines(a) + join_lines(b));
    }
}

/// The rendered body is exactly its lines, each ended by a line break.
proof fn lemma_render_is_joined_lines(pairs: Seq<(Seq<char>, GaugeView)>)
    ensures
        render_spec(pairs) == join_lines(exposition_lines(pairs)),
    decreases pairs.len(),
{
    if pairs.len() > 0 {
        lemma_render_is_joined_lines(pairs.drop_last());
        let k = pairs.last().0;
        let v = pairs.last().1;
        let bl = block_lines(k, v);
        let l0 = Seq::<Seq<char>>::empty();
        let l1 = seq![help_text(k)];
        let l2 = seq![help_text(k), type_text(k)];
        assert(l1.drop_last() =~= l0);
        assert(l2.drop_last() =~= l1);
        assert(bl.drop_last() =~= l2);
        assert(join_lines(l1) == join_lines(l0) + l1.last() + "\n"@);
        assert(join_lines(l2) == join_lines(l1) + l2.last() + "\n"@);
        assert(join_lines(bl) == join_lines(l2) + bl.last() + "\n"@);
        assert(join_lines(l0) =~= Seq::<char>::empty());
        reveal_strlit(" gauge\n");
        reveal_strlit(" gauge");
        reveal_strlit("\n");
        reveal_strlit("# TYPE ");
        assert(" gauge\n"@ =~= " gauge"@ + "\n"@);
        assert(join_lines(bl) =~= help_text(k) + "\n"@ + type_text(k) + "\n"@ + metric_line(
            k,
            v,
        ) + "\n"@);
        assert(entry_block(k, v) =~= join_lines(bl));
        lemma_join_append(exposition_lines(pairs.drop_last()), bl);
        assert(render_spec(pairs) =~= join_lines(exposition_lines(pairs)));
    }
}

/// The lines of the body, key by key: three per pair, in order.
proof fn lemma_exposition_lines_index(pairs: Seq<(Seq<char>, GaugeView)>, i: int)
    requires
        0 <= i < pairs.len(),
    ensures
        exposition_lines(pairs).len() == 3 * pairs.len(),
        exposition_lines(pairs)[3 * i] == help_text(pairs[i].0),
        exposition_lines(pairs)[3 * i + 1] == type_text(pairs[i].0),
        exposition_lines(pairs)[3 * i + 2] == metric_line(pairs[i].0, pairs[i].1),
    decreases pairs.len(),
{
    if i == pairs.len() - 1 {
        lemma_exposition_lines_len(pairs.drop_last());
    } else {
        lemma_exposition_lines_index(pairs.drop_last(), i);
        assert(pairs.drop_last()[i] == pairs[i]);
    }
}

proof fn lemma_exposition_lines_len(pairs: Seq<(Seq<char>, GaugeView)>)
    ensures
        exposition_lines(pairs).len() == 3 * pairs.len(),
    decreases pairs.len(),
{
    if pairs.len() > 0 {
        lemma_exposition_lines_len(pairs.drop_last());
    }
}

proof fn lemma_dec_digits_chars(n: nat)
    ensures
        forall|i: int| 0 <= i < dec_digits(n).len() ==> is_digit(#[trigger] dec_digits(n)[i]),
    decreases n,
{
    if n < 10 {
        assert(is_digit(digit_char(n as int)));
    } else {
        lemma_dec_digits_chars(n / 10);
        assert(is_digit(digit_char((n % 10) as int)));
        assert forall|i: int| 0 <= i < dec_digits(n).len() implies is_digit(
            #[trigger] dec_digits(n)[i],
        ) by {
            if i < dec_digits(n / 10).len() {
                assert(dec_digits(n)[i] == dec_digits(n / 10)[i]);
            } else {
                assert(dec_digits(n)[i] == digit_char((n % 10) as int));
            }
        }
    }
}

/// A gauge value's text holds neither a space nor a line break.
proof fn lemma_gauge_text_plain(v: GaugeView)
    requires
        v.wf(),
    ensures
        forall|i: int|
            0 <= i < gauge_text(v).len() ==> #[trigger] gauge_text(v)[i] != ' ' && gauge_text(
                v,
            )[i] != '\n',
{
    match v {
        GaugeView::Int(x) => {
            if x >= 0 {
                lemma_dec_digits_chars(x as nat);
            } else {
                lemma_dec_digits_chars((-(x as int)) as nat);
            }
        },
        GaugeView::Float(t) => {
            lemma_float_text_plain(t);
        },
    }
}

/// Characters of a mantissa are digits or a point.
proof fn lemma_mantissa_chars(t: Seq<char>, i: int)
    requires
        is_mantissa(t),
        0 <= i < t.len(),
    ensures
        is_digit(t[i]) || t[i] == '.',
{
    crate::text::lemma_mantissa_scan(t);
}

/// A float literal holds neither a space nor a line break.
proof fn lemma_float_text_plain(t: Seq<char>)
    requires
        is_float_text(t),
    ensures
        forall|i: int| 0 <= i < t.len() ==> #[trigger] t[i] != ' ' && t[i] != '\n',
{
    let u = strip_sign(t);
    assert forall|i: int| 0 <= i < u.len() implies #[trigger] u[i] != ' ' && u[i] != '\n' by {
        if is_mantissa(u) {
            lemma_mantissa_chars(u, i);
        } else {
            let e = choose|e: int|
                0 <= e < u.len() && (#[trigger] u[e] == 'e' || u[e] == 'E') && is_mantissa(
                    u.subrange(0, e),
                ) && crate::text::is_exp_part(u.subrange(e + 1, u.len() as int));
            if i < e {
                lemma_mantissa_chars(u.subrange(0, e), i);
                assert(u.subrange(0, e)[i] == u[i]);
            } else if i == e {
            } else {
                let x = u.subrange(e + 1, u.len() as int);
                let y = strip_sign(x);
                let p = i - e - 1;
                assert(x[p] == u[i]);
                if x.len() > 0 && (x[0] == '+' || x[0] == '-') {
                    if p > 0 {
                        assert(y[p - 1] == x[p]);
                        assert(is_digit(y[p - 1]));
                    }
                } else {
                    assert(y[p] == x[p]);
                    assert(is_digit(y[p]));
                }
            }
        }
    }
    assert forall|i: int| 0 <= i < t.len() implies #[trigger] t[i] != ' ' && t[i] != '\n' by {
        if t.len() > 0 && (t[0] == '+' || t[0] == '-') {
            if i > 0 {
                assert(u[i - 1] == t[i]);
            }
        } else {
            assert(u[i] == t[i]);
        }
    }
}

/// Sample lines of different keys differ: a metric name holds no space, the
/// value text holds no space, so the line's single space pins the key down.
proof fn lemma_metric_line_distinct(k1: Seq<char>, v1: GaugeView, k2: Seq<char>, v2: GaugeView)
    requires
        is_metric_name(k1),
        is_metric_name(k2),
        v1.wf(),
        v2.wf(),
        k1 != k2,
    ensures
        metric_line(k1, v1) != metric_line(k2, v2),
{
    let l1 = metric_line(k1, v1);
    let l2 = metric_line(k2, v2);
    reveal_strlit(" ");
    lemma_gauge_text_plain(v1);
    lemma_gauge_text_plain(v2);
    if l1 == l2 {
        if k1.len() == k2.len() {
            assert forall|i: int| 0 <= i < k1.len() implies #[trigger] k1[i] == k2[i] by {
                assert(l1[i] == k1[i]);
                assert(l2[i] == k2[i]);
            }
            assert(k1 =~= k2);
        } else if k1.len() < k2.len() {
            assert(l1[k1.len() as int] == ' ');
            assert(l2[k1.len() as int] == k2[k1.len() as int]);
            assert(is_name_char(k2[k1.len() as int]) || is_digit(k2[k1.len() as int]));
        } else {
            assert(l2[k2.len() as int] == ' ');
            assert(l1[k2.len() as int] == k1[k2.len() as int]);
            assert(is_name_char(k1[k2.len() as int]) || is_digit(k1[k2.len() as int]));
        }
    }
}

/// A comment line holds no line break, and opens with the comment marker.
proof fn lemma_comment_lines_plain(k: Seq<char>)
    requires
        is_metric_name(k),
    ensures
        help_text(k).len() > 0 && help_text(k)[0] == '#',
        type_text(k).len() > 0 && type_text(k)[0] == '#',
        forall|c: int| 0 <= c < help_text(k).len() ==> #[trigger] help_text(k)[c] != '\n',
        forall|c: int| 0 <= c < type_text(k).len() ==> #[trigger] type_text(k)[c] != '\n',
{
    reveal_strlit("# HELP ");
    reveal_strlit(" Value of ");
    reveal_strlit("# TYPE ");
    reveal_strlit(" gauge");
    let a = "# HELP "@;
    let b = " Value of "@;
    assert forall|c: int| 0 <= c < help_text(k).len() implies #[trigger] help_text(k)[c]
        != '\n' by {
        if c < a.len() {
            assert(help_text(k)[c] == a[c]);
        } else if c < a.len() + k.len() {
            assert(help_text(k)[c] == k[c - a.len()]);
            assert(is_name_char(k[c - a.len()]) || is_digit(k[c - a.len()]) || is_name_start(
                k[c - a.len()],
            ));
        } else if c < a.len() + k.len() + b.len() {
            assert(help_text(k)[c] == b[c - a.len() - k.len()]);
        } else {
            assert(help_text(k)[c] == k[c - a.len() - k.len() - b.len()]);
        }
    }
    let t = "# TYPE "@;
    let g = " gauge"@;
    assert forall|c: int| 0 <= c < type_text(k).len() implies #[trigger] type_text(k)[c]
        != '\n' by {
        if c < t.len() {
            assert(type_text(k)[c] == t[c]);
        } else if c < t.len() + k.len() {
            assert(type_text(k)[c] == k[c - t.len()]);
        } else {
            assert(type_text(k)[c] == g[c - t.len() - k.len()]);
        }
    }
    assert(help_text(k)[0] == a[0]);
    assert(type_text(k)[0] == t[0]);
}

/// The exposition body carries exactly one sample line per registered key:
/// the body is its lines joined with line breaks; each key contributes its
/// two comment lines, opened with `#`, and exactly one sample line
/// `key value`; sample lines are free of line breaks and of the comment
/// marker, and no two keys share one.
pub proof fn lemma_one_line_per_key(pairs: Seq<(Seq<char>, GaugeView)>)
    requires
        forall|i: int|
            0 <= i < pairs.len() ==> is_metric_name((#[trigger] pairs[i]).0) && pairs[i].1.wf(),
        forall|i: int, j: int| 0 <= i < j < pairs.len() ==> pairs[i].0 != pairs[j].0,
    ensures
        render_spec(pairs) == join_lines(exposition_lines(pairs)),
        exposition_lines(pairs).len() == 3 * pairs.len(),
        forall|i: int|
            0 <= i < pairs.len() ==> exposition_lines(pairs)[3 * i] == help_text(
                (#[trigger] pairs[i]).0,
            ) && exposition_lines(pairs)[3 * i + 1] == type_text(pairs[i].0) && exposition_lines(
                pairs,
            )[3 * i + 2] == metric_line(pairs[i].0, pairs[i].1),
        forall|i: int|
            0 <= i < pairs.len() ==> help_text((#[trigger] pairs[i]).0)[0] == '#' && type_text(
                pairs[i].0,
            )[0] == '#' && metric_line(pairs[i].0, pairs[i].1)[0] != '#',
        forall|i: int, c: int|
            0 <= i < pairs.len() && 0 <= c < help_text(pairs[i].0).len()
                ==> #[trigger] help_text(pairs[i].0)[c] != '\n',
        forall|i: int, c: int|
            0 <= i < pairs.len() && 0 <= c < type_text(pairs[i].0).len()
                ==> #[trigger] type_text(pairs[i].0)[c] != '\n',
        forall|i: int, j: int|
            0 <= i < pairs.len() && 0 <= j < pairs.len() && i != j ==> metric_line(
                (#[trigger] pairs[i]).0,
                pairs[i].1,
            ) != metric_line((#[trigger] pairs[j]).0, pairs[j].1),
        forall|i: int, c: int|
            0 <= i < pairs.len() && 0 <= c < metric_line(pairs[i].0, pairs[i].1).len()
                ==> #[trigger] metric_line(pairs[i].0, pairs[i].1)[c] != '\n',
{
    lemma_render_is_joined_lines(pairs);
    assert forall|i: int| 0 <= i < pairs.len() implies exposition_lines(pairs)[3 * i]
        == help_text((#[trigger] pairs[i]).0) && exposition_lines(pairs)[3 * i + 1] == type_text(
        pairs[i].0,
    ) && exposition_lines(pairs)[3 * i + 2] == metric_line(pairs[i].0, pairs[i].1) by {
        lemma_exposition_lines_index(pairs, i);
    }
    if pairs.len() > 0 {
        lemma_exposition_lines_index(pairs, 0);
    } else {
        lemma_exposition_lines_len(pairs);
    }
    assert forall|i: int| 0 <= i < pairs.len() implies help_text((#[trigger] pairs[i]).0)[0]
        == '#' && type_text(pairs[i].0)[0] == '#' && metric_line(pairs[i].0, pairs[i].1)[0]
        != '#' by {
        lemma_comment_lines_plain(pairs[i].0);
        reveal_strlit(" ");
        assert(metric_line(pairs[i].0, pairs[i].1)[0] == pairs[i].0[0]);
        assert(is_name_start(pairs[i].0[0]));
    }
    assert forall|i: int, c: int|
        0 <= i < pairs.len() && 0 <= c < help_text(pairs[i].0).len()
        implies #[trigger] help_text(pairs[i].0)[c] != '\n' by {
        lemma_comment_lines_plain(pairs[i].0);
    }
    assert forall|i: int, c: int|
        0 <= i < pairs.len() && 0 <= c < type_text(pairs[i].0).len()
        implies #[trigger] type_text(pairs[i].0)[c] != '\n' by {
        lemma_comment_lines_plain(pairs[i].0);
    }
    assert forall|i: int, j: int|
        0 <= i < pairs.len() && 0 <= j < pairs.len() && i != j implies metric_line(
        (#[trigger] pairs[i]).0,
        pairs[i].1,
    ) != metric_line((#[trigger] pairs[j]).0, pairs[j].1) by {
        if i < j {
            lemma_metric_line_distinct(pairs[i].0, pairs[i].1, pairs[j].0, pairs[j].1);
        } else {
            lemma_metric_line_distinct(pairs[j].0, pairs[j].1, pairs[i].0, pairs[i].1);
        }
    }
    assert forall|i: int, c: int|
        0 <= i < pairs.len() && 0 <= c < metric_line(pairs[i].0, pairs[i].1).len()
        implies #[trigger] metric_line(pairs[i].0, pairs[i].1)[c] != '\n' by {
        let k = pairs[i].0;
        let v = pairs[i].1;
        reveal_strlit(" ");
        lemma_gauge_text_plain(v);
        if c < k.len() {
            assert(metric_line(k, v)[c] == k[c]);
            assert(is_name_char(k[c]) || is_digit(k[c]));
        } else if c == k.len() {
            assert(metric_line(k, v)[c] == ' ');
        } else {
            assert(metric_line(k, v)[c] == gauge_text(v)[c - k.len() - 1]);
        }
    }
}

} // verus!
