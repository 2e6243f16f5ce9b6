use event_etl::dims::{CountryDim, CountryTable, ProductDim, ProductTable};
use event_etl::{load_country_dim, load_product_dim};

fn product(table: &ProductTable, id: i64) -> Option<ProductDim> {
    table.entries.get(&id).cloned()
}

#[test]
fn product_rows_are_read() {
    let table = load_product_dim(b"product_id,category,margin_bps,weight_grams\n3,Electronics,2000,600\n4,toys,100,50\n");
    assert_eq!(table.entries.len(), 2);
    assert_eq!(
        product(&table, 3),
        Some(ProductDim { category: b"electronics".to_vec(), margin_bps: 2000, weight_grams: 600 })
    );
    assert_eq!(
        product(&table, 4),
        Some(ProductDim { category: b"toys".to_vec(), margin_bps: 100, weight_grams: 50 })
    );
}

#[test]
fn product_heading_is_not_a_row() {
    let table = load_product_dim(b"1,first,10,10\n2,second,20,20\n");
    assert_eq!(table.entries.len(), 1);
    assert_eq!(product(&table, 1), None);
    assert!(product(&table, 2).is_some());
}

#[test]
fn product_rows_that_describe_nothing_are_passed_over() {
    let text = b"h\n\n   \n5,short,1\n0,zero,1,1\n-4,negative,1,1\nabc,text,1,1\n,empty,1,1\n6,kept,1,1\n";
    let table = load_product_dim(text);
    assert_eq!(table.entries.len(), 1);
    assert!(product(&table, 6).is_some());
}

#[test]
fn product_numbers_are_clamped() {
    let table = load_product_dim(b"h\n1,a,-5,0\n2,b,9501,20001\n3,c,x,y\n4,d,9500,20000\n5,e,0,1\n");
    assert_eq!(product(&table, 1).unwrap().margin_bps, 0);
    assert_eq!(product(&table, 1).unwrap().weight_grams, 1);
    assert_eq!(product(&table, 2).unwrap().margin_bps, 9500);
    assert_eq!(product(&table, 2).unwrap().weight_grams, 20_000);
    assert_eq!(product(&table, 3).unwrap().margin_bps, 0);
    assert_eq!(product(&table, 3).unwrap().weight_grams, 1);
    assert_eq!(product(&table, 4).unwrap().margin_bps, 9500);
    assert_eq!(product(&table, 4).unwrap().weight_grams, 20_000);
    assert_eq!(product(&table, 5).unwrap().margin_bps, 0);
    assert_eq!(product(&table, 5).unwrap().weight_grams, 1);
}

#[test]
fn product_category_is_trimmed_and_lowered() {
    let table = load_product_dim(b"h\n1,  Home & Garden ,1,1\n2,,1,1\n3,   ,1,1\n");
    assert_eq!(product(&table, 1).unwrap().category, b"home & garden".to_vec());
    assert_eq!(product(&table, 2).unwrap().category, b"unknown".to_vec());
    assert_eq!(product(&table, 3).unwrap().category, b"unknown".to_vec());
}

#[test]
fn product_later_row_overrides() {
    let table = load_product_dim(b"h\n7,first,100,10\n8,other,1,1\n 7 ,second,200,20\n");
    assert_eq!(table.entries.len(), 2);
    assert_eq!(
        product(&table, 7),
        Some(ProductDim { category: b"second".to_vec(), margin_bps: 200, weight_grams: 20 })
    );
}

#[test]
fn product_further_columns_are_ignored() {
    let table = load_product_dim(b"h\r\n9,books,300,400,extra,more\r\n");
    assert_eq!(
        product(&table, 9),
        Some(ProductDim { category: b"books".to_vec(), margin_bps: 300, weight_grams: 400 })
    );
}

#[test]
fn product_lookup_falls_back() {
    let table = load_product_dim(b"h\n3,electronics,2000,600\n");
    assert_eq!(
        table.lookup(3),
        ProductDim { category: b"electronics".to_vec(), margin_bps: 2000, weight_grams: 600 }
    );
    assert_eq!(
        table.lookup(4),
        ProductDim { category: b"unknown".to_vec(), margin_bps: 2500, weight_grams: 500 }
    );
}

#[test]
fn product_table_by_hand() {
    let mut table = ProductTable::new();
    assert_eq!(table.lookup(1).category, b"unknown".to_vec());
    table.insert(1, ProductDim { category: b"a".to_vec(), margin_bps: 1, weight_grams: 2 });
    table.insert(1, ProductDim { category: b"b".to_vec(), margin_bps: 3, weight_grams: 4 });
    assert_eq!(
        table.lookup(1),
        ProductDim { category: b"b".to_vec(), margin_bps: 3, weight_grams: 4 }
    );
}

#[test]
fn empty_tables() {
    assert_eq!(load_product_dim(b"").entries.len(), 0);
    assert_eq!(load_product_dim(b"only a heading").entries.len(), 0);
    assert_eq!(load_country_dim(b"").entries.len(), 0);
    assert_eq!(load_country_dim(b"only a heading\n").entries.len(), 0);
}

#[test]
fn country_rows_are_read() {
    let table = load_country_dim(b"country,fx_to_usd_ppm,risk_bps,tax_bps\nUS,1000000,300,800\nde,1080000,250,1900\n");
    assert_eq!(
        table.lookup(b"US"),
        CountryDim { fx_to_usd_ppm: 1_000_000, risk_bps: 300, tax_bps: 800 }
    );
    assert_eq!(
        table.lookup(b"DE"),
        CountryDim { fx_to_usd_ppm: 1_080_000, risk_bps: 250, tax_bps: 1900 }
    );
}

#[test]
fn country_lookup_falls_back() {
    let table = load_country_dim(b"h\nUS,1000000,300,800\n");
    let fallback = CountryDim { fx_to_usd_ppm: 1_000_000, risk_bps: 10_000, tax_bps: 0 };
    assert_eq!(table.lookup(b"ZZ"), fallback);
    assert_eq!(table.lookup(b"us"), fallback);
    assert_eq!(table.lookup(b""), fallback);
    assert_eq!(CountryTable::new().lookup(b"US"), fallback);
}

#[test]
fn country_rows_that_describe_nothing_are_passed_over() {
    let table = load_country_dim(b"h\n\n,1,1,1\n  ,1,1,1\nFR,1,1\nIT,2,3,4\n");
    assert_eq!(table.entries.len(), 1);
    assert_eq!(table.lookup(b"IT"), CountryDim { fx_to_usd_ppm: 2, risk_bps: 3, tax_bps: 4 });
}

#[test]
fn country_numbers_are_clamped() {
    let table = load_country_dim(b"h\nA,0,0,-1\nB,2500001,20001,5001\nC,x,y,z\nD,2500000,20000,5000\n");
    assert_eq!(table.lookup(b"A"), CountryDim { fx_to_usd_ppm: 1, risk_bps: 1, tax_bps: 0 });
    assert_eq!(
        table.lookup(b"B"),
        CountryDim { fx_to_usd_ppm: 2_500_000, risk_bps: 20_000, tax_bps: 5_000 }
    );
    assert_eq!(table.lookup(b"C"), CountryDim { fx_to_usd_ppm: 1, risk_bps: 1, tax_bps: 0 });
    assert_eq!(
        table.lookup(b"D"),
        CountryDim { fx_to_usd_ppm: 2_500_000, risk_bps: 20_000, tax_bps: 5_000 }
    );
}

#[test]
fn country_later_row_overrides() {
    let table = load_country_dim(b"h\nus,1,1,1\nCA,5,5,5\n Us ,2,2,2\n");
    assert_eq!(table.lookup(b"US"), CountryDim { fx_to_usd_ppm: 2, risk_bps: 2, tax_bps: 2 });
    assert_eq!(table.lookup(b"CA"), CountryDim { fx_to_usd_ppm: 5, risk_bps: 5, tax_bps: 5 });
}
