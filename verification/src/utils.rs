use vstd::prelude::*;

verus! {

/// The names that were read, in device order (devices whose name could not be read are left
/// out).
pub open spec fn present_names(names: Seq<Option<String>>) -> Seq<String>
    decreases names.len(),
{
    if names.len() == 0 {
        Seq::empty()
    } else {
        let rest = present_names(names.drop_last());
        match names.last() {
            Some(n) => rest.push(n),
            None => rest,
        }
    }
}

/// The device name was read and reads as `target`.
pub open spec fn named(name: Option<String>, target: Seq<char>) -> bool {
    match name {
        Some(n) => n@ == target,
        None => false,
    }
}

/// Index of the first device whose name reads as `target`.
pub open spec fn first_named(names: Seq<Option<String>>, target: Seq<char>) -> Option<int> {
    if exists|i: int| 0 <= i < names.len() && named(names[i], target) {
        Some(
            choose|i: int|
                0 <= i < names.len() && named(names[i], target) && forall|j: int|
                    0 <= j < i ==> !named(names[j], target),
        )
    } else {
        None
    }
}

proof fn lemma_lowest_match(names: Seq<Option<String>>, target: Seq<char>, k: int)
    requires
        0 <= k < names.len(),
        named(names[k], target),
    ensures
        exists|i: int|
            0 <= i < names.len() && named(names[i], target) && forall|j: int|
                0 <= j < i ==> !named(names[j], target),
    decreases k,
{
    if exists|j: int| 0 <= j < k && named(names[j], target) {
        let j = choose|j: int| 0 <= j < k && named(names[j], target);
        lemma_lowest_match(names, target, j);
    } else {
        assert(0 <= k < names.len() && named(names[k], target) && forall|j: int|
            0 <= j < k ==> !named(names[j], target));
    }
}

/// `first_named` finds a device exactly when some device's name reads as `target`, and then
/// it is the lowest such position.
pub proof fn lemma_first_named(names: Seq<Option<String>>, target: Seq<char>)
    ensures
        first_named(names, target) is Some <==> exists|i: int|
            0 <= i < names.len() && named(names[i], target),
        first_named(names, target) matches Some(i) ==> {
            &&& 0 <= i < names.len()
            &&& named(names[i], target)
            &&& forall|j: int| 0 <= j < i ==> !named(names[j], target)
            &&& names[i] matches Some(s) && s@ == target
            &&& forall|j: int|
                #![trigger names[j]]
                0 <= j < i ==> !(names[j] matches Some(s) && s@ == target)
        },
        first_named(names, target) is None ==> forall|j: int|
            #![trigger names[j]]
            0 <= j < names.len() ==> !(names[j] matches Some(s) && s@ == target),
{
    if exists|i: int| 0 <= i < names.len() && named(names[i], target) {
        let k = choose|i: int| 0 <= i < names.len() && named(names[i], target);
        lemma_lowest_match(names, target, k);
    }
}

fn collect_names(names: &Vec<Option<String>>) -> (r: Vec<String>)
    ensures
        r@ == present_names(names@),
{
    let mut r: Vec<String> = Vec::new();
    let mut i: usize = 0;
    while i < names.len()
        invariant
            i <= names@.len(),
            r@ == present_names(names@.take(i as int)),
        decreases names@.len() - i,
    {
        proof {
            assert(names@.take(i + 1).drop_last() =~= names@.take(i as int));
        }
        match &names[i] {
            Some(n) => {
                r.push(n.clone());
            },
            None => {},
        }
        i = i + 1;
    }
    proof {
        assert(names@.take(names@.len() as int) =~= names@);
    }
    r
}

fn enumeration_error(prefix: &str, error: &String) -> (r: String)
    ensures
        r@ == prefix@ + error@,
{
    let mut r = String::from_str(prefix);
    r.append(error.as_str());
    r
}

fn find_name(names: &Vec<Option<String>>, device_name: &str) -> (r: Option<usize>)
    ensures
        match r {
            Some(i) => first_named(names@, device_name@) == Some(i as int),
            None => first_named(names@, device_name@) is None,
        },
{
    let target = String::from_str(device_name);
    let mut i: usize = 0;
    while i < names.len()
        invariant
            i <= names@.len(),
            target@ == device_name@,
            forall|j: int| 0 <= j < i ==> !named(names@[j], device_name@),
        decreases names@.len() - i,
    {
        match &names[i] {
            Some(n) => {
                if *n == target {
                    proof {
                        let w = choose|k: int|
                            0 <= k < names@.len() && named(names@[k], device_name@) && forall|j: int|
                                0 <= j < k ==> !named(names@[j], device_name@);
                        assert(0 <= i < names@.len() && named(names@[i as int], device_name@) && forall|j: int|
                            0 <= j < i ==> !named(names@[j], device_name@));
                        if w < i {
                        } else if w > i {
                            assert(!named(names@[i as int], device_name@));
                        }
                    }
                    return Some(i);
                }
            },
            None => {},
        }
        i = i + 1;
    }
    None
}

/// Names of the input devices, given what enumerating them gave: the names that could be
/// read, in order, or the enumeration error behind a prefix.
pub fn list_input_devices(devices: Result<Vec<Option<String>>, String>) -> (r: Result<
    Vec<String>,
    String,
>)
    ensures
        match (devices, r) {
            (Ok(names), Ok(out)) => out@ == present_names(names@),
            (Err(e), Err(msg)) => msg@ == "枚举输入设备失败: "@ + e@,
            _ => false,
        },
{
    match devices {
        Ok(names) => Ok(collect_names(&names)),
        Err(e) => Err(enumeration_error("枚举输入设备失败: ", &e)),
    }
}

/// Names of the output devices, given what enumerating them gave: the names that could be
/// read, in order, or the enumeration error behind a prefix.
pub fn list_output_devices(devices: Result<Vec<Option<String>>, String>) -> (r: Result<
    Vec<String>,
    String,
>)
    ensures
        match (devices, r) {
            (Ok(names), Ok(out)) => out@ == present_names(names@),
            (Err(e), Err(msg)) => msg@ == "枚举输出设备失败: "@ + e@,
            _ => false,
        },
{
    match devices {
        Ok(names) => Ok(collect_names(&names)),
        Err(e) => Err(enumeration_error("枚举输出设备失败: ", &e)),
    }
}

fn not_found(device_name: &str) -> (r: String)
    ensures
        r@ == "未找到设备: "@ + device_name@,
{
    let mut r = String::from_str("未找到设备: ");
    r.append(device_name);
    r
}

/// Position of the input device named `device_name` among the enumerated devices: the first
/// whose name reads so. Errors: the enumeration failed, or no device has that name.
pub fn find_input_device_by_name(
    devices: Result<Vec<Option<String>>, String>,
    device_name: &str,
) -> (r: Result<usize, String>)
    ensures
        match devices {
            Err(e) => r matches Err(msg) && msg@ == "枚举输入设备失败: "@ + e@,
            Ok(names) => match first_named(names@, device_name@) {
                Some(i) => r == Ok::<usize, String>(i as usize),
                None => r matches Err(msg) && msg@ == "未找到设备: "@ + device_name@,
            },
        },
{
    match devices {
        Err(e) => Err(enumeration_error("枚举输入设备失败: ", &e)),
        Ok(names) => match find_name(&names, device_name) {
            Some(i) => Ok(i),
            None => Err(not_found(device_name)),
        },
    }
}

/// Position of the output device named `device_name` among the enumerated devices: the first
/// whose name reads so. Errors: the enumeration failed, or no device has that name.
pub fn find_output_device_by_name(
    devices: Result<Vec<Option<String>>, String>,
    device_name: &str,
) -> (r: Result<usize, String>)
    ensures
        match devices {
            Err(e) => r matches Err(msg) && msg@ == "枚举输出设备失败: "@ + e@,
            Ok(names) => match first_named(names@, device_name@) {
                Some(i) => r == Ok::<usize, String>(i as usize),
                None => r matches Err(msg) && msg@ == "未找到设备: "@ + device_name@,
            },
        },
{
    match devices {
        Err(e) => Err(enumeration_error("枚举输出设备失败: ", &e)),
        Ok(names) => match find_name(&names, device_name) {
            Some(i) => Ok(i),
            None => Err(not_found(device_name)),
        },
    }
}

/// A device matches a requested name exactly when its name could be read and equals the
/// requested name as a whole.
pub proof fn lemma_named_is_whole_name(n: String, target: Seq<char>)
    ensures
        named(Some(n), target) <==> n@ == target,
        !named(None, target),
{
}

/// The device list keeps one name per device whose name could be read, in device order: a
/// device whose name was read adds that name at the end, one whose name was not adds nothing,
/// and listing two runs of devices lists the first run's names followed by the second's.
pub proof fn lemma_present_names_one_per_device(
    a: Seq<Option<String>>,
    b: Seq<Option<String>>,
    n: String,
)
    ensures
        present_names(a.push(Some(n))) == present_names(a).push(n),
        present_names(a.push(None)) == present_names(a),
        present_names(Seq::<Option<String>>::empty()) == Seq::<String>::empty(),
        present_names(a + b) == present_names(a) + present_names(b),
    decreases b.len(),
{
    assert(a.push(Some(n)).drop_last() =~= a);
    assert(a.push(None).drop_last() =~= a);
    if b.len() == 0 {
        assert(a + b =~= a);
        assert(present_names(a) + Seq::<String>::empty() =~= present_names(a));
    } else {
        lemma_present_names_one_per_device(a, b.drop_last(), n);
        assert((a + b).drop_last() =~= a + b.drop_last());
        assert((a + b).last() == b.last());
        match b.last() {
            Some(m) => {
                assert(present_names(a) + present_names(b.drop_last()).push(m) =~= (present_names(
                    a,
                ) + present_names(b.drop_last())).push(m));
            },
            None => {},
        }
    }
}

} // verus!
