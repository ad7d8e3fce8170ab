use vstd::prelude::*;

use crate::value::{obj_get, sobj_get, vview, vview_fields, SpecValue, Value};

verus! {

#[derive(Clone, Copy, PartialEq, Eq, Structural, Debug)]
pub enum CmpOp {
    Eq,
    Ne,
    Gt,
    Ge,
    Lt,
    Le,
}

/// A numeric threshold condition on one flat field of a record.
pub struct Condition {
    pub field: String,
    pub op: CmpOp,
    pub value: i64,
}

/// One alert rule applicable to a stream.
pub struct Alert {
    pub name: String,
    pub condition: Condition,
}

/// The one-shot signal that an alert condition newly held: at most one
/// survives a request.
pub struct Trigger {
    pub alert_name: String,
    pub org: String,
    pub stream: String,
}

pub open spec fn aview(a: Alert) -> (Seq<char>, Seq<char>, CmpOp, int) {
    (a.name@, a.condition.field@, a.condition.op, a.condition.value as int)
}

pub open spec fn aviews(s: Seq<Alert>) -> Seq<(Seq<char>, Seq<char>, CmpOp, int)> {
    Seq::new(s.len(), |i: int| aview(s[i]))
}

pub open spec fn spec_cmp(op: CmpOp, x: int, v: int) -> bool {
    match op {
        CmpOp::Eq => x == v,
        CmpOp::Ne => x != v,
        CmpOp::Gt => x > v,
        CmpOp::Ge => x >= v,
        CmpOp::Lt => x < v,
        CmpOp::Le => x <= v,
    }
}

/// An alert's condition holds of a record exactly when the named field
/// carries an integer satisfying the comparison.
pub open spec fn spec_cond_holds(
    rec: Seq<(Seq<char>, SpecValue)>,
    a: (Seq<char>, Seq<char>, CmpOp, int),
) -> bool {
    match sobj_get(rec, a.1) {
        Some(v) => match v {
            SpecValue::Int(x) => spec_cmp(a.2, x, a.3),
            _ => false,
        },
        None => false,
    }
}

/// Index of the first alert whose condition holds of the record.
pub open spec fn spec_first_match(
    alerts: Seq<(Seq<char>, Seq<char>, CmpOp, int)>,
    rec: Seq<(Seq<char>, SpecValue)>,
) -> Option<int>
    decreases alerts.len(),
{
    if alerts.len() == 0 {
        None
    } else if spec_cond_holds(rec, alerts[0]) {
        Some(0)
    } else {
        match spec_first_match(alerts.drop_first(), rec) {
            Some(i) => Some(i + 1),
            None => None,
        }
    }
}

fn eval_condition(a: &Alert, rec: &Vec<(String, Value)>) -> (r: bool)
    ensures
        r == spec_cond_holds(vview_fields(rec@), aview(*a)),
{
    match obj_get(rec, &a.condition.field) {
        Some(v) => match v {
            Value::Int(x) => {
                let x = *x;
                match a.condition.op {
                    CmpOp::Eq => x == a.condition.value,
                    CmpOp::Ne => x != a.condition.value,
                    CmpOp::Gt => x > a.condition.value,
                    CmpOp::Ge => x >= a.condition.value,
                    CmpOp::Lt => x < a.condition.value,
                    CmpOp::Le => x <= a.condition.value,
                }
            },
            _ => false,
        },
        None => false,
    }
}

/// Evaluates every alert rule of the stream against one accepted flat
/// record. The first rule whose condition holds yields
/// the request's trigger candidate.
#[verifier::loop_isolation(false)]
pub fn check_alerts(
    alerts: &Vec<Alert>,
    rec: &Vec<(String, Value)>,
    org: &String,
    stream: &String,
) -> (r: Option<Trigger>)
    ensures
        match r {
            Some(t) => {
                &&& spec_first_match(aviews(alerts@), vview_fields(rec@)) is Some
                &&& {
                    let i = spec_first_match(aviews(alerts@), vview_fields(rec@))->0;
                    t.alert_name@ == aviews(alerts@)[i].0
                }
                &&& t.org@ == org@
                &&& t.stream@ == stream@
            },
            None => spec_first_match(aviews(alerts@), vview_fields(rec@)) is None,
        },
{
    let ghost av = aviews(alerts@);
    let ghost rv = vview_fields(rec@);
    proof {
        assert(av.skip(0) =~= av);
    }
    let mut i: usize = 0;
    while i < alerts.len()
        invariant
            i <= alerts.len(),
            spec_first_match(av.skip(i as int), rv) is Some <==> spec_first_match(av, rv) is Some,
            spec_first_match(av.skip(i as int), rv) is Some ==> spec_first_match(av, rv)->0
                == spec_first_match(av.skip(i as int), rv)->0 + i,
        decreases alerts.len() - i,
    {
        proof {
            assert(av.skip(i as int)[0] == av[i as int]);
            assert(av.skip(i as int).drop_first() =~= av.skip(i + 1));
        }
        if eval_condition(&alerts[i], rec) {
            return Some(
                Trigger { alert_name: alerts[i].name.clone(), org: org.clone(), stream: stream.clone() },
            );
        }
        i = i + 1;
    }
    proof {
        assert(av.skip(i as int).len() == 0);
    }
    None
}

} // verus!
