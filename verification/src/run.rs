use vstd::prelude::*;

use crate::bytes::bytes_eq;
use crate::configuration::{Configuration, ConfigurationModel, Configurations};
use crate::error::Error;

verus! {

/// The stored configurations selected by a device filter, in store order:
/// all of them without a filter, those keyed by the given path otherwise.
pub open spec fn spec_selected(s: Seq<ConfigurationModel>, device: Option<Seq<u8>>) -> Seq<
    ConfigurationModel,
>
    decreases s.len(),
{
    if s.len() == 0 {
        s
    } else {
        let rest = spec_selected(s.drop_first(), device);
        let keep = match device {
            Some(d) => s[0].device == d,
            None => true,
        };
        if keep {
            seq![s[0]] + rest
        } else {
            rest
        }
    }
}

/// Plans the replay of saved configurations: picks the stored device
/// entries the filter selects, whose savelists the caller then applies in
/// order.  A file descriptor may only be supplied together with a device
/// path.  A device without a stored entry simply selects nothing; that is
/// no error.
pub fn run(device: Option<&Vec<u8>>, fd: Option<i32>, store: &Configurations) -> (r: Result<
    Vec<Configuration>,
    Error,
>)
    ensures
        r is Err <==> (fd is Some && device is None),
        r is Err ==> r->Err_0 == Error::InvalidInput,
        r is Ok ==> r->Ok_0@.map_values(|c: Configuration| c@) == spec_selected(
            store@,
            match device {
                Some(d) => Some(d@),
                None => None,
            },
        ),
{
    if fd.is_some() && device.is_none() {
        return Err(Error::InvalidInput);
    }
    let ghost filter: Option<Seq<u8>> = match device {
        Some(d) => Some(d@),
        None => None,
    };
    let entries = store.devices();
    let n = entries.len();
    let mut picked: Vec<Configuration> = Vec::new();
    assert(picked@.map_values(|c: Configuration| c@) =~= Seq::<ConfigurationModel>::empty());
    assert(store@.skip(0) =~= store@);
    let mut i: usize = 0;
    while i < n
        invariant
            n == entries@.len(),
            entries@.map_values(|c: Configuration| c@) == store@,
            i <= n,
            filter == (match device {
                Some(d) => Some(d@),
                None => None,
            }),
            picked@.map_values(|c: Configuration| c@) + spec_selected(
                store@.skip(i as int),
                filter,
            ) =~= spec_selected(store@, filter),
        decreases n - i,
    {
        proof {
            assert(store@.skip(i as int)[0] == store@[i as int]);
            assert(store@.skip(i as int).drop_first() =~= store@.skip(i + 1));
        }
        let keep = match device {
            Some(d) => bytes_eq(entries[i].device().as_bytes(), d),
            None => true,
        };
        if keep {
            let ghost prev = picked@.map_values(|c: Configuration| c@);
            picked.push(entries[i].duplicate());
            assert(picked@.map_values(|c: Configuration| c@) =~= prev + seq![
                store@[i as int],
            ]);
        }
        i += 1;
    }
    assert(store@.skip(n as int) =~= Seq::<ConfigurationModel>::empty());
    Ok(picked)
}

} // verus!
