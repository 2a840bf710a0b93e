use vstd::prelude::*;

verus! {

/// An image laid over a short, in pixels.
#[derive(Debug, Clone)]
pub struct ImageOverlay {
    pub path: String,
    pub x: i32,
    pub y: i32,
    pub width: Option<u32>,
    pub height: Option<u32>,
}

/// A configured API key: its secret, a display name, and whether it is used.
#[derive(Debug, Clone)]
pub struct ApiKey {
    pub value: String,
    pub name: String,
    pub enabled: bool,
}

/// The name a key gets when the configuration gives none.
pub fn default_key_name() -> (r: String)
    ensures
        r@ == "Gemini Key"@,
{
    String::from_str("Gemini Key")
}

/// Keys are enabled unless the configuration says otherwise.
pub fn default_true() -> (r: bool)
    ensures
        r,
{
    true
}

/// The `(name, secret)` pair of each enabled key, in order.
pub open spec fn enabled_pairs(keys: Seq<ApiKey>) -> Seq<(Seq<char>, Seq<char>)> {
    keys.filter_map(
        |k: ApiKey|
            if k.enabled {
                Some((k.name@, k.value@))
            } else {
                None
            },
    )
}

pub open spec fn pair_views(p: Seq<(String, String)>) -> Seq<(Seq<char>, Seq<char>)> {
    p.map_values(|x: (String, String)| (x.0@, x.1@))
}

/// The enabled keys as `(name, secret)` pairs for a credential pool.
pub fn enabled_key_pairs(keys: &Vec<ApiKey>) -> (r: Vec<(String, String)>)
    ensures
        pair_views(r@) == enabled_pairs(keys@),
{
    let mut out: Vec<(String, String)> = Vec::new();
    let mut i: usize = 0;
    while i < keys.len()
        invariant
            i <= keys@.len(),
            pair_views(out@) == enabled_pairs(keys@.take(i as int)),
        decreases keys@.len() - i,
    {
        let ghost f = |k: ApiKey|
            if k.enabled {
                Some((k.name@, k.value@))
            } else {
                None
            };
        proof {
            keys@.lemma_filter_map_take_succ(f, i as int);
        }
        let ghost before = out@;
        if keys[i].enabled {
            out.push((keys[i].name.clone(), keys[i].value.clone()));
            assert(pair_views(out@) =~= pair_views(before) + seq![(keys@[i as int].name@, keys@[i as int].value@)]);
        }
        i = i + 1;
    }
    assert(keys@.take(i as int) =~= keys@);
    out
}

} // verus!
