//! Progress accounting: workers report how far a node's pass has come, and
//! a collector folds the reports into a one-line textual summary.

use vstd::prelude::*;

verus! {

/// Largest point count the percent formatter accepts; far above any real
/// node, and small enough that basis-point arithmetic stays in range.
pub const PROGRESS_COUNT_LIMIT: i64 = 0x4000_0000_0000;

/// One progress message: how many of a node's points have been handled.
#[derive(Debug, Clone)]
pub struct Status {
    pub name: String,
    pub current_points: i64,
    pub num_points: i64,
}

#[verifier::external_type_specification]
#[verifier::external_body]
#[verifier::reject_recursive_types(T)]
pub struct ExSender<T>(std::sync::mpsc::Sender<T>);

/// Relies on std::sync::mpsc::Sender::send: hands the message to the
/// receiving end of the channel. Unlike the panicking unwrap a caller might
/// write, a send to a hung-up receiver is discarded here.
#[verifier::external_body]
fn send_status_message(tx: &std::sync::mpsc::Sender<Status>, status: Status) {
    let _ = tx.send(status);
}

/// Counts points handled for one node and sends a `Status` over the channel
/// after every change.
pub struct SendingProgressReporter {
    pub name: String,
    pub tx: std::sync::mpsc::Sender<Status>,
    pub num_points: i64,
    pub current_points: i64,
}

impl SendingProgressReporter {
    /// The handled count never falls outside `[0, num_points]`.
    pub open spec fn wf(self) -> bool {
        0 <= self.current_points <= self.num_points
    }

    /// A fresh reporter for `num_points` points; announces itself with an
    /// initial zero-progress message.
    pub fn new(name: String, tx: std::sync::mpsc::Sender<Status>, num_points: i64) -> (r: Self)
        requires
            num_points >= 0,
        ensures
            r.wf(),
            r.name@ == name@,
            r.num_points == num_points,
            r.current_points == 0,
    {
        let reporter = SendingProgressReporter { name, tx, num_points, current_points: 0 };
        reporter.send_status();
        reporter
    }

    /// Sends the current counts over the channel.
    pub fn send_status(&self) {
        send_status_message(
            &self.tx,
            Status {
                name: self.name.clone(),
                current_points: self.current_points,
                num_points: self.num_points,
            },
        );
    }

    /// Records `count` more handled points, saturating at the total, and
    /// sends the new counts.
    pub fn add(&mut self, count: u64)
        requires
            old(self).wf(),
        ensures
            final (self).wf(),
            final (self).name@ == old(self).name@,
            final (self).num_points == old(self).num_points,
            final (self).current_points == if old(self).current_points + count > old(
                self,
            ).num_points {
                old(self).num_points as int
            } else {
                old(self).current_points + count
            },
    {
        let remaining = (self.num_points - self.current_points) as u64;
        if count >= remaining {
            self.current_points = self.num_points;
        } else {
            self.current_points = self.current_points + (count as i64);
        }
        self.send_status();
    }

    /// Declares the pass complete: sends a final message whose current
    /// count equals the total.
    pub fn finish(self) {
        send_status_message(
            &self.tx,
            Status {
                name: self.name.clone(),
                current_points: self.num_points,
                num_points: self.num_points,
            },
        );
    }
}

/// Decimal digit characters.
pub open spec fn spec_dec_digit(d: int) -> char {
    if d == 0 {
        '0'
    } else if d == 1 {
        '1'
    } else if d == 2 {
        '2'
    } else if d == 3 {
        '3'
    } else if d == 4 {
        '4'
    } else if d == 5 {
        '5'
    } else if d == 6 {
        '6'
    } else if d == 7 {
        '7'
    } else if d == 8 {
        '8'
    } else {
        '9'
    }
}

/// Decimal numeral of a nonnegative number, most significant digit first.
pub open spec fn spec_decimal(n: int) -> Seq<char>
    decreases n,
{
    if n <= 9 {
        seq![spec_dec_digit(n)]
    } else {
        spec_decimal(n / 10).push(spec_dec_digit(n % 10))
    }
}

fn dec_digit_str(d: u64) -> (r: &'static str)
    requires
        d <= 9,
    ensures
        r@ == seq![spec_dec_digit(d as int)],
{
    proof {
        reveal_strlit("0");
        reveal_strlit("1");
        reveal_strlit("2");
        reveal_strlit("3");
        reveal_strlit("4");
        reveal_strlit("5");
        reveal_strlit("6");
        reveal_strlit("7");
        reveal_strlit("8");
        reveal_strlit("9");
    }
    let r: &'static str = if d == 0 {
        "0"
    } else if d == 1 {
        "1"
    } else if d == 2 {
        "2"
    } else if d == 3 {
        "3"
    } else if d == 4 {
        "4"
    } else if d == 5 {
        "5"
    } else if d == 6 {
        "6"
    } else if d == 7 {
        "7"
    } else if d == 8 {
        "8"
    } else {
        "9"
    };
    proof {
        assert(r@ =~= seq![spec_dec_digit(d as int)]);
    }
    r
}

/// Renders `n` in decimal.
pub fn u64_to_decimal(n: u64) -> (r: String)
    ensures
        r@ == spec_decimal(n as int),
    decreases n,
{
    if n <= 9 {
        dec_digit_str(n).to_owned()
    } else {
        let head = u64_to_decimal(n / 10);
        let r = head.concat(dec_digit_str(n % 10));
        proof {
            assert(r@ =~= spec_decimal(n as int));
        }
        r
    }
}

/// The percent display of `current` out of `num`, in hundredths, rounded
/// down, e.g. `12.34%`; a total of zero or less displays as complete zero.
pub open spec fn spec_percent_chars(current: int, num: int) -> Seq<char> {
    let bp = if num <= 0 {
        0int
    } else {
        current * 10000 / num
    };
    spec_decimal(bp / 100) + seq!['.'] + (if bp % 100 <= 9 {
        seq!['0'].push(spec_dec_digit(bp % 100))
    } else {
        spec_decimal(bp % 100)
    }) + seq!['%']
}

/// Formats the progress percentage with two decimal places.
pub fn percent_string(current: i64, num: i64) -> (r: String)
    requires
        0 <= current <= num <= PROGRESS_COUNT_LIMIT,
    ensures
        r@ == spec_percent_chars(current as int, num as int),
{
    let bp: u64 = if num <= 0 {
        0
    } else {
        (current as u64) * 10000 / (num as u64)
    };
    let frac = bp % 100;
    let frac_str = if frac <= 9 {
        let z: &'static str = "0";
        proof {
            reveal_strlit("0");
        }
        z.to_owned().concat(dec_digit_str(frac))
    } else {
        u64_to_decimal(frac)
    };
    proof {
        reveal_strlit(".");
        reveal_strlit("%");
    }
    let r = u64_to_decimal(bp / 100).concat(".").concat(frac_str.as_str()).concat("%");
    proof {
        assert(r@ =~= spec_percent_chars(current as int, num as int));
    }
    r
}

/// The key/value views of an entry list.
pub open spec fn entry_views(s: Seq<(String, String)>) -> Seq<(Seq<char>, Seq<char>)> {
    Seq::new(s.len(), |i: int| (s[i].0@, s[i].1@))
}

/// The entries whose name differs from `k`, in order.
pub open spec fn entries_without(s: Seq<(Seq<char>, Seq<char>)>, k: Seq<char>) -> Seq<
    (Seq<char>, Seq<char>),
>
    decreases s.len(),
{
    if s.len() == 0 {
        Seq::empty()
    } else {
        let head = entries_without(s.drop_last(), k);
        if s.last().0 == k {
            head
        } else {
            head.push(s.last())
        }
    }
}

/// Aggregates progress messages into a list of `name(percent)` entries, one
/// per node still in flight.
pub struct ProgressMap {
    pub entries: Vec<(String, String)>,
}

impl ProgressMap {
    pub fn new() -> (r: ProgressMap)
        ensures
            entry_views(r.entries@).len() == 0,
    {
        ProgressMap { entries: Vec::new() }
    }

    pub fn is_empty(&self) -> (r: bool)
        ensures
            r == (entry_views(self.entries@).len() == 0),
    {
        self.entries.len() == 0
    }

    /// Folds one message in: the node's entry is replaced by its fresh
    /// percent display, appended last; a message that reports completion
    /// removes the node's entry instead.
    pub fn apply(&mut self, status: &Status)
        requires
            0 <= status.current_points <= status.num_points <= PROGRESS_COUNT_LIMIT,
        ensures
            entry_views(final (self).entries@) == if status.current_points == status.num_points {
                entries_without(entry_views(old(self).entries@), status.name@)
            } else {
                entries_without(entry_views(old(self).entries@), status.name@).push(
                    (
                        status.name@,
                        spec_percent_chars(
                            status.current_points as int,
                            status.num_points as int,
                        ),
                    ),
                )
            },
    {
        let ghost orig = entry_views(self.entries@);
        let pct = percent_string(status.current_points, status.num_points);
        let mut kept: Vec<(String, String)> = Vec::new();
        let mut i: usize = 0;
        proof {
            assert(orig.subrange(0, 0) =~= Seq::<(Seq<char>, Seq<char>)>::empty());
        }
        while i < self.entries.len()
            invariant
                i <= self.entries@.len(),
                orig == entry_views(self.entries@),
                entry_views(kept@) == entries_without(orig.subrange(0, i as int), status.name@),
            decreases self.entries@.len() - i,
        {
            let ghost kpre = entry_views(kept@);
            proof {
                let pre = orig.subrange(0, i as int);
                let post = orig.subrange(0, i as int + 1);
                assert(post.drop_last() =~= pre);
                assert(post.last() == orig[i as int]);
                assert(orig[i as int] == (self.entries@[i as int].0@, self.entries@[i as int].1@));
            }
            if !(self.entries[i].0 == status.name) {
                let name_cl = self.entries[i].0.clone();
                let val_cl = self.entries[i].1.clone();
                kept.push((name_cl, val_cl));
                proof {
                    assert(entry_views(kept@) =~= kpre.push(orig[i as int]));
                }
            }
            i = i + 1;
        }
        proof {
            assert(orig.subrange(0, orig.len() as int) =~= orig);
        }
        if status.current_points != status.num_points {
            let ghost kpre = entry_views(kept@);
            kept.push((status.name.clone(), pct));
            proof {
                assert(entry_views(kept@) =~= kpre.push(
                    (
                        status.name@,
                        spec_percent_chars(
                            status.current_points as int,
                            status.num_points as int,
                        ),
                    ),
                ));
            }
        }
        self.entries = kept;
    }

    /// The summary line: the caller's message, then each entry as
    /// `name(percent)`, comma separated.
    pub fn render(&self, message: &str) -> (r: String)
        ensures
            r@ == message@ + seq![' '] + spec_joined_entries(entry_views(self.entries@)),
    {
        proof {
            reveal_strlit(" ");
            reveal_strlit("(");
            reveal_strlit(")");
            reveal_strlit(", ");
        }
        let mut out = message.to_owned();
        out.append(" ");
        let mut i: usize = 0;
        proof {
            assert(out@ =~= message@ + seq![' ']);
            assert(entry_views(self.entries@).subrange(0, 0) =~= Seq::<
                (Seq<char>, Seq<char>),
            >::empty());
        }
        while i < self.entries.len()
            invariant
                i <= self.entries@.len(),
                out@ == message@ + seq![' '] + spec_joined_entries(
                    entry_views(self.entries@).subrange(0, i as int),
                ),
            decreases self.entries@.len() - i,
        {
            proof {
                reveal_strlit("(");
                reveal_strlit(")");
                reveal_strlit(", ");
                let views = entry_views(self.entries@);
                let pre = views.subrange(0, i as int);
                let post = views.subrange(0, i as int + 1);
                assert(post.drop_last() =~= pre);
                assert(post.last() == views[i as int]);
            }
            if i > 0 {
                out.append(", ");
            }
            out.append(self.entries[i].0.as_str());
            out.append("(");
            out.append(self.entries[i].1.as_str());
            out.append(")");
            proof {
                assert(out@ =~= message@ + seq![' '] + spec_joined_entries(
                    entry_views(self.entries@).subrange(0, i as int + 1),
                ));
            }
            i = i + 1;
        }
        proof {
            let views = entry_views(self.entries@);
            assert(views.subrange(0, views.len() as int) =~= views);
        }
        out
    }
}

/// One rendered entry.
pub open spec fn spec_entry_chars(e: (Seq<char>, Seq<char>)) -> Seq<char> {
    e.0 + seq!['('] + e.1 + seq![')']
}

/// The rendered entries, comma separated.
pub open spec fn spec_joined_entries(s: Seq<(Seq<char>, Seq<char>)>) -> Seq<char>
    decreases s.len(),
{
    if s.len() == 0 {
        Seq::empty()
    } else if s.len() == 1 {
        spec_entry_chars(s[0])
    } else {
        spec_joined_entries(s.drop_last()) + seq![',', ' '] + spec_entry_chars(s.last())
    }
}

} // verus!
