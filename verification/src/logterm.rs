//! The log-viewer configuration: one line per recorded log directory
//! under a `logsets:` heading.

use vstd::prelude::*;
use vstd::string::StringExecFns;
use crate::driver::log_view;

verus! {

/// One configuration line for a service and its log directory.
pub open spec fn logterm_line(name: Seq<char>, dir: Seq<char>) -> Seq<char> {
    "  "@ + name + ": "@ + dir + "/current\n"@
}

/// The configuration lines of a mapping, in order.
pub open spec fn logterm_body(logs: Seq<(Seq<char>, Seq<char>)>) -> Seq<char>
    decreases logs.len(),
{
    if logs.len() == 0 {
        Seq::empty()
    } else {
        logterm_line(logs[0].0, logs[0].1) + logterm_body(logs.drop_first())
    }
}

/// The whole configuration: heading, lines, and a final blank line.
pub open spec fn logterm_config_spec(logs: Seq<(Seq<char>, Seq<char>)>) -> Seq<char> {
    "logsets:\n"@ + logterm_body(logs) + "\n"@
}

/// One more entry appends its line.
proof fn lemma_logterm_body_push(v: Seq<(Seq<char>, Seq<char>)>, x: (Seq<char>, Seq<char>))
    ensures
        logterm_body(v.push(x)) == logterm_body(v) + logterm_line(x.0, x.1),
    decreases v.len(),
{
    if v.len() == 0 {
        assert(v.push(x)[0] == x);
        assert(v.push(x).drop_first() =~= Seq::<(Seq<char>, Seq<char>)>::empty());
        assert(logterm_body(Seq::<(Seq<char>, Seq<char>)>::empty()) =~= Seq::<char>::empty());
        assert(logterm_body(v.push(x)) =~= logterm_line(x.0, x.1));
        assert(logterm_body(v) + logterm_line(x.0, x.1) =~= logterm_line(x.0, x.1));
    } else {
        assert(v.push(x)[0] == v[0]);
        assert(v.push(x).drop_first() =~= v.drop_first().push(x));
        lemma_logterm_body_push(v.drop_first(), x);
        assert(logterm_line(v[0].0, v[0].1) + (logterm_body(v.drop_first()) + logterm_line(
            x.0,
            x.1,
        )) =~= logterm_line(v[0].0, v[0].1) + logterm_body(v.drop_first()) + logterm_line(
            x.0,
            x.1,
        ));
    }
}

/// Serializes the recorded log-directory mapping for the log viewer.
#[verifier::loop_isolation(false)]
pub fn logterm_config(service_logs: &Vec<(String, String)>) -> (r: String)
    ensures
        r@ == logterm_config_spec(log_view(service_logs@)),
{
    let ghost lg = log_view(service_logs@);
    let mut res = String::from_str("logsets:\n");
    let mut i: usize = 0;
    proof {
        assert(lg.take(0) =~= Seq::<(Seq<char>, Seq<char>)>::empty());
        assert(res@ =~= "logsets:\n"@ + logterm_body(lg.take(0)));
    }
    while i < service_logs.len()
        invariant
            i <= service_logs@.len(),
            res@ == "logsets:\n"@ + logterm_body(lg.take(i as int)),
        decreases service_logs@.len() - i,
    {
        res.append("  ");
        res.append(service_logs[i].0.as_str());
        res.append(": ");
        res.append(service_logs[i].1.as_str());
        res.append("/current\n");
        proof {
            assert(lg.take(i + 1) =~= lg.take(i as int).push(lg[i as int]));
            lemma_logterm_body_push(lg.take(i as int), lg[i as int]);
            assert(lg[i as int] == (service_logs@[i as int].0@, service_logs@[i as int].1@));
            assert(res@ =~= "logsets:\n"@ + logterm_body(lg.take(i + 1)));
        }
        i += 1;
    }
    res.append("\n");
    proof {
        assert(lg.take(service_logs@.len() as int) =~= lg);
        assert(res@ =~= logterm_config_spec(lg));
    }
    res
}

} // verus!
