use vstd::prelude::*;
use vstd::string::StringExecFns;

verus! {

/// The address entries of a header, `None` where an entry has no address.
pub open spec fn entries_view(list: Seq<Option<String>>) -> Seq<Option<Seq<char>>> {
    list.map_values(
        |o: Option<String>|
            match o {
                Some(s) => Some(s@),
                None => None,
            },
    )
}

/// How many entries hold an address.
pub open spec fn present_count(a: Seq<Option<Seq<char>>>) -> nat
    decreases a.len(),
{
    if a.len() == 0 {
        0
    } else {
        present_count(a.drop_last()) + if a.last() is Some {
            1nat
        } else {
            0nat
        }
    }
}

/// The addresses that are present, in order, separated by a comma and a space.
pub open spec fn joined(a: Seq<Option<Seq<char>>>) -> Seq<char>
    decreases a.len(),
{
    if a.len() == 0 {
        Seq::empty()
    } else {
        let init = joined(a.drop_last());
        match a.last() {
            None => init,
            Some(x) => if present_count(a.drop_last()) == 0 {
                x
            } else {
                init + seq![',', ' '] + x
            },
        }
    }
}

/// Joins the addresses of an address list for display.
pub fn convert_list(list: &Vec<Option<String>>) -> (r: String)
    ensures
        r@ == joined(entries_view(list@)),
{
    let mut out = String::new();
    let mut any = false;
    let mut k: usize = 0;
    let sep = ", ";
    proof {
        reveal_strlit(", ");
    }
    while k < list.len()
        invariant
            k <= list@.len(),
            sep@ == seq![',', ' '],
            out@ == joined(entries_view(list@).subrange(0, k as int)),
            any == (present_count(entries_view(list@).subrange(0, k as int)) > 0),
            !any ==> out@.len() == 0,
        decreases list@.len() - k,
    {
        let ghost a = entries_view(list@).subrange(0, k as int + 1);
        assert(a.drop_last() =~= entries_view(list@).subrange(0, k as int));
        match &list[k] {
            Some(x) => {
                assert(a.last() == Some(x@));
                if any {
                    out.append(sep);
                }
                out.append(x.as_str());
                any = true;
            },
            None => {
                assert(a.last() is None);
            },
        }
        k = k + 1;
        assert(entries_view(list@).subrange(0, k as int) =~= a);
    }
    assert(entries_view(list@).subrange(0, list@.len() as int) =~= entries_view(list@));
    out
}

/// The address of a single-address header, or nothing.
pub fn convert_address(address: &Option<String>) -> (r: String)
    ensures
        match address {
            Some(s) => r@ == s@,
            None => r@.len() == 0,
        },
{
    match address {
        Some(s) => s.clone(),
        None => String::new(),
    }
}

} // verus!
