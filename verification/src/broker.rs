//! A broker as it introduces itself, with the table of its symbols.
use crate::string_map::StringMap;
use vstd::prelude::*;

verus! {

/// A broker that a terminal speaks for.
#[derive(Debug)]
pub struct Broker {
    pub id: String,
    pub name: String,
    pub api_key: String,
    /// The canonical code of each symbol that the broker names otherwise. It is no part of what
    /// a terminal sends: it comes from the field `symbol_map` of the broker's hash.
    pub symbol_map: StringMap<String>,
}

impl Default for Broker {
    fn default() -> (broker: Broker)
        ensures
            broker.id@ == Seq::<char>::empty(),
            broker.name@ == Seq::<char>::empty(),
            broker.api_key@ == Seq::<char>::empty(),
            broker.symbol_map.texts() == Map::<Seq<char>, Seq<char>>::empty(),
    {
        let broker = Broker {
            id: String::new(),
            name: String::new(),
            api_key: String::new(),
            symbol_map: StringMap::new(),
        };
        assert(broker.symbol_map.texts() =~= Map::<Seq<char>, Seq<char>>::empty());
        broker
    }
}

impl Clone for Broker {
    fn clone(&self) -> (broker: Broker)
        ensures
            broker.id@ == self.id@,
            broker.name@ == self.name@,
            broker.api_key@ == self.api_key@,
            broker.symbol_map@ == self.symbol_map@,
    {
        Broker {
            id: self.id.clone(),
            name: self.name.clone(),
            api_key: self.api_key.clone(),
            symbol_map: self.symbol_map.clone(),
        }
    }
}

impl Broker {
    /// The canonical code of a symbol as the broker names it; `None` where the broker has no
    /// mapping for it.
    pub fn canonical_symbol(&self, raw: &str) -> (r: Option<&str>)
        ensures
            match r {
                Some(symbol) => self.symbol_map.texts().contains_key(raw@) && symbol@
                    == self.symbol_map.texts()[raw@],
                None => !self.symbol_map.texts().contains_key(raw@),
            },
    {
        match self.symbol_map.get(raw) {
            Some(symbol) => Some(symbol.as_str()),
            None => None,
        }
    }
}

}
